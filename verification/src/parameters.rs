//! User-facing parameters: modes chosen from a fixed list, integer sliders and
//! on/off toggles, and the full set of parameters of the picture processor.
use vstd::prelude::*;
use vstd::string::*;

verus! {

/// A parameter that can be stepped up or down and described as one line of text.
pub trait Parameter: Sized {
    /// The parameter's value after one step up.
    spec fn incremented(&self) -> Self;

    /// The parameter's value after one step down.
    spec fn decremented(&self) -> Self;

    /// Whether a step up can be computed without integer overflow.
    spec fn can_increment(&self) -> bool;

    /// Whether a step down can be computed without integer overflow.
    spec fn can_decrement(&self) -> bool;

    /// Whether the description can be built (the value names an existing option).
    spec fn can_describe(&self) -> bool;

    /// The one-line description of the parameter.
    spec fn text(&self) -> Seq<char>;

    fn build_string(&self) -> (s: String)
        requires
            self.can_describe(),
        ensures
            s@ == self.text(),
    ;

    fn increment(&mut self)
        requires
            old(self).can_increment(),
        ensures
            *final(self) == old(self).incremented(),
    ;

    fn decrement(&mut self)
        requires
            old(self).can_decrement(),
        ensures
            *final(self) == old(self).decremented(),
    ;
}

/// The character of a decimal digit.
pub open spec fn digit_char(d: nat) -> char {
    seq!['0', '1', '2', '3', '4', '5', '6', '7', '8', '9'][d as int]
}

/// The decimal writing of a natural number, most significant digit first.
pub open spec fn decimal_text(n: nat) -> Seq<char>
    decreases n,
{
    if n < 10 {
        seq![digit_char(n)]
    } else {
        decimal_text(n / 10).push(digit_char(n % 10))
    }
}

/// The decimal writing of an integer, with a leading `-` when it is negative.
pub open spec fn int_text(v: int) -> Seq<char> {
    if v < 0 {
        seq!['-'] + decimal_text((-v) as nat)
    } else {
        decimal_text(v as nat)
    }
}

/// The writing of a boolean.
pub open spec fn bool_text(b: bool) -> Seq<char> {
    if b {
        seq!['t', 'r', 'u', 'e']
    } else {
        seq!['f', 'a', 'l', 's', 'e']
    }
}

/// `name - detail`, the shape of every parameter's description.
pub open spec fn labelled(name: Seq<char>, detail: Seq<char>) -> Seq<char> {
    name + seq![' ', '-', ' '] + detail
}

fn digit_str(d: u32) -> (r: &'static str)
    requires
        d < 10,
    ensures
        r@ == seq![digit_char(d as nat)],
{
    proof {
        reveal_strlit("0");
        reveal_strlit("1");
        reveal_strlit("2");
        reveal_strlit("3");
        reveal_strlit("4");
        reveal_strlit("5");
        reveal_strlit("6");
        reveal_strlit("7");
        reveal_strlit("8");
        reveal_strlit("9");
    }
    match d {
        0 => "0",
        1 => "1",
        2 => "2",
        3 => "3",
        4 => "4",
        5 => "5",
        6 => "6",
        7 => "7",
        8 => "8",
        _ => "9",
    }
}

fn append_decimal(s: &mut String, n: u32)
    ensures
        final(s)@ == old(s)@ + decimal_text(n as nat),
    decreases n,
{
    if n >= 10 {
        append_decimal(s, n / 10);
    }
    let d = digit_str(n % 10);
    s.append(d);
    proof {
        if n >= 10 {
            assert(decimal_text(n as nat) == decimal_text((n / 10) as nat).push(digit_char((n % 10) as nat)));
        }
    }
}

/// Appends the decimal writing of `v` to `s`, as `i32`'s `to_string` writes it.
fn append_int(s: &mut String, v: i32)
    ensures
        final(s)@ == old(s)@ + int_text(v as int),
{
    if v < 0 {
        proof {
            reveal_strlit("-");
        }
        s.append("-");
        let magnitude: u32 = if v == i32::MIN {
            2147483648u32
        } else {
            (-v) as u32
        };
        append_decimal(s, magnitude);
    } else {
        append_decimal(s, v as u32);
    }
}

fn labelled_string(name: &str, detail: &str) -> (s: String)
    ensures
        s@ == labelled(name@, detail@),
{
    proof {
        reveal_strlit(" - ");
    }
    let mut s = String::from_str(name);
    s.append(" - ");
    s.append(detail);
    s
}


/// A choice among a fixed list of options, each with a label and a value.
#[derive(Clone, Copy)]
pub struct Mode<T: 'static + Copy + Clone> {
    pub name: &'static str,
    pub options_text: &'static [&'static str],
    pub options_enum: &'static [T],
    pub options_quantity: usize,
    pub value: usize,
}

impl<T: Copy + Clone> Mode<T> {
    /// A mode is well formed when it has as many labels as options and its value
    /// selects one of them.
    pub open spec fn wf(&self) -> bool {
        &&& self.options_quantity == self.options_enum@.len()
        &&& self.options_quantity == self.options_text@.len()
        &&& self.value < self.options_quantity
    }

    /// Builds a mode on its first option; there must be one label per option.
    pub fn new(name: &'static str, options_text: &'static [&'static str], options_enum: &'static [T]) -> (m: Self)
        requires
            options_enum@.len() == options_text@.len(),
        ensures
            m.name == name,
            m.options_text == options_text,
            m.options_enum == options_enum,
            m.options_quantity == options_enum@.len(),
            m.value == 0,
    {
        Self { name, options_text, options_enum, options_quantity: options_enum.len(), value: 0 }
    }

    /// The selected option.
    pub fn get(&self) -> (r: &T)
        requires
            self.value < self.options_enum@.len(),
        ensures
            *r == self.options_enum@[self.value as int],
    {
        &self.options_enum[self.value]
    }
}

/// The value of a mode after a step up: the next option, held at the last one.
pub open spec fn mode_step_up(value: int, quantity: int) -> int {
    if value + 1 < quantity - 1 {
        value + 1
    } else {
        quantity - 1
    }
}

/// The value of a mode after a step down: the previous option, held at the first one.
pub open spec fn mode_step_down(value: int) -> int {
    if value > 0 {
        value - 1
    } else {
        0
    }
}

impl<T: Copy + Clone> Parameter for Mode<T> {
    open spec fn incremented(&self) -> Self {
        Mode { value: mode_step_up(self.value as int, self.options_quantity as int) as usize, ..*self }
    }

    open spec fn decremented(&self) -> Self {
        Mode { value: mode_step_down(self.value as int) as usize, ..*self }
    }

    open spec fn can_increment(&self) -> bool {
        self.options_quantity >= 1 && self.value < usize::MAX
    }

    open spec fn can_decrement(&self) -> bool {
        true
    }

    open spec fn can_describe(&self) -> bool {
        self.value < self.options_text@.len()
    }

    open spec fn text(&self) -> Seq<char> {
        labelled(self.name@, self.options_text@[self.value as int]@)
    }

    fn build_string(&self) -> (s: String) {
        labelled_string(self.name, self.options_text[self.value])
    }

    fn decrement(&mut self) {
        self.value = self.value.saturating_sub(1);
    }

    fn increment(&mut self) {
        self.value = self.value + 1;
        let last = self.options_quantity - 1;
        if last < self.value {
            self.value = last;
        }
    }
}

/// An integer setting moved by a fixed step and held between two bounds.
#[derive(Clone, Copy)]
pub struct Slider {
    pub name: &'static str,
    pub min: i32,
    pub max: i32,
    pub value: i32,
    pub step: i32,
}

impl Slider {
    /// A slider within `[min, max]`, starting on `default`, moved by `step`.
    pub fn new(name: &'static str, min: i32, max: i32, default: i32, step: i32) -> (s: Self)
        ensures
            s == (Slider { name, min, max, value: default, step }),
    {
        Self { name, min, max, value: default, step }
    }

    /// The current value.
    pub fn get(&self) -> (r: i32)
        ensures
            r == self.value,
    {
        self.value
    }
}

/// The value of a slider after a step up: one step more, held at the upper bound.
pub open spec fn slider_step_up(value: int, step: int, max: int) -> int {
    if value + step < max {
        value + step
    } else {
        max
    }
}

/// The value of a slider after a step down: one step less, held at the lower bound.
pub open spec fn slider_step_down(value: int, step: int, min: int) -> int {
    if value - step > min {
        value - step
    } else {
        min
    }
}

impl Parameter for Slider {
    open spec fn incremented(&self) -> Self {
        Slider { value: slider_step_up(self.value as int, self.step as int, self.max as int) as i32, ..*self }
    }

    open spec fn decremented(&self) -> Self {
        Slider { value: slider_step_down(self.value as int, self.step as int, self.min as int) as i32, ..*self }
    }

    open spec fn can_increment(&self) -> bool {
        i32::MIN <= self.value + self.step <= i32::MAX
    }

    open spec fn can_decrement(&self) -> bool {
        i32::MIN <= self.value - self.step <= i32::MAX
    }

    open spec fn can_describe(&self) -> bool {
        true
    }

    open spec fn text(&self) -> Seq<char> {
        labelled(self.name@, int_text(self.value as int))
    }

    fn build_string(&self) -> (s: String) {
        let mut s = labelled_string(self.name, "");
        proof {
            reveal_strlit("");
        }
        append_int(&mut s, self.value);
        assert(s@ =~= labelled(self.name@, int_text(self.value as int)));
        s
    }

    fn decrement(&mut self) {
        let lowered = self.value - self.step;
        self.value = if lowered > self.min { lowered } else { self.min };
    }

    fn increment(&mut self) {
        let raised = self.value + self.step;
        self.value = if raised < self.max { raised } else { self.max };
    }
}

/// An on/off setting; a step either way flips it.
#[derive(Clone, Copy)]
pub struct Toggle {
    pub name: &'static str,
    pub value: bool,
}

impl Toggle {
    /// A toggle starting on `default`.
    pub fn new(name: &'static str, default: bool) -> (t: Self)
        ensures
            t == (Toggle { name, value: default }),
    {
        Self { name, value: default }
    }

    /// The current state.
    pub fn get(&self) -> (r: bool)
        ensures
            r == self.value,
    {
        self.value
    }
}

impl Parameter for Toggle {
    open spec fn incremented(&self) -> Self {
        Toggle { value: !self.value, ..*self }
    }

    open spec fn decremented(&self) -> Self {
        Toggle { value: !self.value, ..*self }
    }

    open spec fn can_increment(&self) -> bool {
        true
    }

    open spec fn can_decrement(&self) -> bool {
        true
    }

    open spec fn can_describe(&self) -> bool {
        true
    }

    open spec fn text(&self) -> Seq<char> {
        labelled(self.name@, bool_text(self.value))
    }

    fn build_string(&self) -> (s: String) {
        proof {
            reveal_strlit("true");
            reveal_strlit("false");
        }
        let detail = if self.value { "true" } else { "false" };
        labelled_string(self.name, detail)
    }

    fn decrement(&mut self) {
        self.value = !self.value;
    }

    fn increment(&mut self) {
        self.value = !self.value;
    }
}

/// How the color channels are laid out in the signal.
#[derive(Clone, Copy, PartialEq, Eq, Debug, Structural)]
pub enum ColorMode {
    Bayer,
    Interleaved,
    Composite,
}

/// What becomes of the alpha channel.
#[derive(Clone, Copy, PartialEq, Eq, Debug, Structural)]
pub enum AlphaMode {
    Preserve,
    Delete,
    /// Processed with the colors (does nothing in Bayer mode).
    Interleave,
}

/// The order in which pixels are read into the signal.
#[derive(Clone, Copy, PartialEq, Eq, Debug, Structural)]
pub enum OrderMode {
    Column,
    Row,
    ReverseRow,
    ReverseColumn,
}

/// The number of parameters in a [`Parameters`] set.
pub const PARAMETER_COUNT: u32 = 8;

/// Every parameter of the processor that the terminal interface can change.
#[derive(Clone, Copy)]
pub struct Parameters {
    pub alpha_mode: Mode<AlphaMode>,
    pub color_mode: Mode<ColorMode>,
    pub order_mode: Mode<OrderMode>,
    pub delay_time: Slider,
    pub delay_feedback: Slider,
    pub filter_cutoff: Slider,
    pub filter_resonance: Slider,
    pub continuous: Toggle,
    pub parameter_amount: u32,
}

impl Parameters {
    /// The parameter set as the interface starts: each mode on its first
    /// option, each slider on its default, the toggle off, and all eight
    /// parameters counted.
    pub fn new() -> (p: Self)
        ensures
            p.alpha_mode.name == "Alpha Mode",
            p.alpha_mode.options_text@ == seq!["Delete", "Preserve", "Interleave"],
            p.alpha_mode.options_enum@ == seq![AlphaMode::Delete, AlphaMode::Preserve, AlphaMode::Interleave],
            p.color_mode.name == "Color Mode",
            p.color_mode.options_text@ == seq!["Composite", "Interleaved", "Bayer"],
            p.color_mode.options_enum@ == seq![ColorMode::Composite, ColorMode::Interleaved, ColorMode::Bayer],
            p.order_mode.name == "Order Mode",
            p.order_mode.options_text@ == seq!["Row", "Column"],
            p.order_mode.options_enum@ == seq![OrderMode::Row, OrderMode::Column],
            p.alpha_mode.wf() && p.alpha_mode.value == 0,
            p.color_mode.wf() && p.color_mode.value == 0,
            p.order_mode.wf() && p.order_mode.value == 0,
            p.delay_time == (Slider { name: "Delay", min: 0, max: 5000, value: 0, step: 1 }),
            p.delay_feedback == (Slider { name: "Feedback", min: 0, max: 1000, value: 0, step: 1 }),
            p.filter_cutoff == (Slider { name: "Cutoff", min: 20, max: 100000, value: 100000, step: 1000 }),
            p.filter_resonance == (Slider { name: "Resonance", min: 0, max: 2000, value: 1, step: 1 }),
            p.continuous == (Toggle { name: "Continuous", value: false }),
            p.parameter_amount == PARAMETER_COUNT,
    {
        let mut temp = Self {
            alpha_mode: Mode::new(
                "Alpha Mode",
                &["Delete", "Preserve", "Interleave"],
                &[AlphaMode::Delete, AlphaMode::Preserve, AlphaMode::Interleave],
            ),
            color_mode: Mode::new(
                "Color Mode",
                &["Composite", "Interleaved", "Bayer"],
                &[ColorMode::Composite, ColorMode::Interleaved, ColorMode::Bayer],
            ),
            order_mode: Mode::new(
                "Order Mode",
                &["Row", "Column"],
                &[OrderMode::Row, OrderMode::Column],
            ),
            delay_time: Slider::new("Delay", 0, 5000, 0, 1),
            delay_feedback: Slider::new("Feedback", 0, 1000, 0, 1),
            continuous: Toggle::new("Continuous", false),
            filter_cutoff: Slider::new("Cutoff", 20, 100000, 100000, 1000),
            filter_resonance: Slider::new("Resonance", 0, 2000, 1, 1),
            parameter_amount: 0,
        };
        temp.count_param();
        temp
    }

    /// Records how many parameters the set holds.
    pub fn count_param(&mut self)
        ensures
            *final(self) == (Parameters { parameter_amount: PARAMETER_COUNT, ..*old(self) }),
    {
        self.parameter_amount = PARAMETER_COUNT;
    }
    /// Whether the parameter at `index` (in display order) can be stepped up.
    /// Indices past the last parameter name none, and stepping them does nothing.
    pub open spec fn can_increment_at(&self, index: u32) -> bool {
        match index {
            0 => self.alpha_mode.can_increment(),
            1 => self.color_mode.can_increment(),
            2 => self.order_mode.can_increment(),
            3 => self.delay_time.can_increment(),
            4 => self.delay_feedback.can_increment(),
            5 => self.filter_cutoff.can_increment(),
            6 => self.filter_resonance.can_increment(),
            7 => self.continuous.can_increment(),
            _ => true,
        }
    }

    /// Whether the parameter at `index` can be stepped down.
    pub open spec fn can_decrement_at(&self, index: u32) -> bool {
        match index {
            0 => self.alpha_mode.can_decrement(),
            1 => self.color_mode.can_decrement(),
            2 => self.order_mode.can_decrement(),
            3 => self.delay_time.can_decrement(),
            4 => self.delay_feedback.can_decrement(),
            5 => self.filter_cutoff.can_decrement(),
            6 => self.filter_resonance.can_decrement(),
            7 => self.continuous.can_decrement(),
            _ => true,
        }
    }

    /// The set with the parameter at `index` stepped up and every other one unchanged.
    pub open spec fn incremented_at(&self, index: u32) -> Self {
        match index {
            0 => Parameters { alpha_mode: self.alpha_mode.incremented(), ..*self },
            1 => Parameters { color_mode: self.color_mode.incremented(), ..*self },
            2 => Parameters { order_mode: self.order_mode.incremented(), ..*self },
            3 => Parameters { delay_time: self.delay_time.incremented(), ..*self },
            4 => Parameters { delay_feedback: self.delay_feedback.incremented(), ..*self },
            5 => Parameters { filter_cutoff: self.filter_cutoff.incremented(), ..*self },
            6 => Parameters { filter_resonance: self.filter_resonance.incremented(), ..*self },
            7 => Parameters { continuous: self.continuous.incremented(), ..*self },
            _ => *self,
        }
    }

    /// The set with the parameter at `index` stepped down and every other one unchanged.
    pub open spec fn decremented_at(&self, index: u32) -> Self {
        match index {
            0 => Parameters { alpha_mode: self.alpha_mode.decremented(), ..*self },
            1 => Parameters { color_mode: self.color_mode.decremented(), ..*self },
            2 => Parameters { order_mode: self.order_mode.decremented(), ..*self },
            3 => Parameters { delay_time: self.delay_time.decremented(), ..*self },
            4 => Parameters { delay_feedback: self.delay_feedback.decremented(), ..*self },
            5 => Parameters { filter_cutoff: self.filter_cutoff.decremented(), ..*self },
            6 => Parameters { filter_resonance: self.filter_resonance.decremented(), ..*self },
            7 => Parameters { continuous: self.continuous.decremented(), ..*self },
            _ => *self,
        }
    }

    /// Steps up the parameter at `index` in display order.
    pub fn increment_at(&mut self, index: u32)
        requires
            old(self).can_increment_at(index),
        ensures
            *final(self) == old(self).incremented_at(index),
    {
        match index {
            0 => self.alpha_mode.increment(),
            1 => self.color_mode.increment(),
            2 => self.order_mode.increment(),
            3 => self.delay_time.increment(),
            4 => self.delay_feedback.increment(),
            5 => self.filter_cutoff.increment(),
            6 => self.filter_resonance.increment(),
            7 => self.continuous.increment(),
            _ => {},
        }
    }

    /// Steps down the parameter at `index` in display order.
    pub fn decrement_at(&mut self, index: u32)
        requires
            old(self).can_decrement_at(index),
        ensures
            *final(self) == old(self).decremented_at(index),
    {
        match index {
            0 => self.alpha_mode.decrement(),
            1 => self.color_mode.decrement(),
            2 => self.order_mode.decrement(),
            3 => self.delay_time.decrement(),
            4 => self.delay_feedback.decrement(),
            5 => self.filter_cutoff.decrement(),
            6 => self.filter_resonance.decrement(),
            7 => self.continuous.decrement(),
            _ => {},
        }
    }

    /// Whether every parameter can be described.
    pub open spec fn can_describe(&self) -> bool {
        &&& self.alpha_mode.can_describe()
        &&& self.color_mode.can_describe()
        &&& self.order_mode.can_describe()
    }

    /// The descriptions of all parameters, in display order.
    pub open spec fn texts(&self) -> Seq<Seq<char>> {
        seq![
            self.alpha_mode.text(),
            self.color_mode.text(),
            self.order_mode.text(),
            self.delay_time.text(),
            self.delay_feedback.text(),
            self.filter_cutoff.text(),
            self.filter_resonance.text(),
            self.continuous.text(),
        ]
    }

    /// One line of description per parameter, in display order.
    pub fn build_strings(&self) -> (lines: Vec<String>)
        requires
            self.can_describe(),
        ensures
            lines@.len() == PARAMETER_COUNT,
            forall|i: int| 0 <= i < lines@.len() ==> #[trigger] lines@[i]@ == self.texts()[i],
    {
        let mut lines: Vec<String> = Vec::new();
        lines.push(self.alpha_mode.build_string());
        lines.push(self.color_mode.build_string());
        lines.push(self.order_mode.build_string());
        lines.push(self.delay_time.build_string());
        lines.push(self.delay_feedback.build_string());
        lines.push(self.filter_cutoff.build_string());
        lines.push(self.filter_resonance.build_string());
        lines.push(self.continuous.build_string());
        lines
    }
}

/// A well-formed mode stays well formed whichever way it is stepped: its value
/// always selects one of its options (and so can be read and described).
pub proof fn law_mode_steps_keep_selection<T: Copy + Clone>(m: Mode<T>)
    requires
        m.wf(),
    ensures
        m.can_increment(),
        m.can_decrement(),
        m.incremented().wf(),
        m.decremented().wf(),
        m.incremented().can_describe(),
        m.decremented().can_describe(),
{
}

/// A slider whose value lies within its bounds, moved by a non-negative step,
/// keeps its value within its bounds whichever way it is stepped.
pub proof fn law_slider_stays_in_bounds(s: Slider)
    requires
        s.min <= s.value <= s.max,
        s.step >= 0,
    ensures
        s.min <= s.incremented().value <= s.max,
        s.min <= s.decremented().value <= s.max,
        s.incremented().min == s.min && s.incremented().max == s.max,
        s.decremented().min == s.min && s.decremented().max == s.max,
{
}

/// A toggle flips on each step either way, so two steps give it back.
pub proof fn law_toggle_flips(t: Toggle)
    ensures
        t.incremented().value == !t.value,
        t.decremented().value == !t.value,
        t.incremented().incremented() == t,
        t.decremented().incremented() == t,
{
}

/// A step up raises a slider by exactly one step, held at its maximum, and a
/// step down lowers it by exactly one step, held at its minimum; a step up
/// that stays within the bounds is undone by a step down.
pub proof fn law_slider_moves_one_step(s: Slider)
    requires
        s.step >= 0,
    ensures
        s.value + s.step <= s.max ==> s.incremented().value == s.value + s.step,
        s.value + s.step >= s.max ==> s.incremented().value == s.max,
        s.value - s.step >= s.min ==> s.decremented().value == s.value - s.step,
        s.value - s.step <= s.min ==> s.decremented().value == s.min,
        s.min <= s.value && s.value + s.step <= s.max ==> s.incremented().decremented() == s,
        s.value <= s.max && s.min <= s.value - s.step ==> s.decremented().incremented() == s,
{
}

/// A step up selects exactly the next option, held at the last one, and a step
/// down exactly the previous one, held at the first; a step up that does not
/// reach past the last option is undone by a step down.
pub proof fn law_mode_moves_one_option<T: Copy + Clone>(m: Mode<T>)
    requires
        m.options_quantity >= 1,
    ensures
        m.value + 1 <= m.options_quantity - 1 ==> m.incremented().value == m.value + 1,
        m.value + 1 >= m.options_quantity - 1 ==> m.incremented().value == m.options_quantity - 1,
        m.value >= 1 ==> m.decremented().value == m.value - 1,
        m.value == 0 ==> m.decremented().value == 0,
        m.value + 1 < m.options_quantity ==> m.incremented().decremented() == m,
{
}

} // verus!
