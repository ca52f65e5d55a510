use nom_de_plante::buffer::SimpleRingBuffer;
use nom_de_plante::parameters::{
    AlphaMode, ColorMode, Mode, OrderMode, Parameter, Parameters, Slider, Toggle,
};
use nom_de_plante::picture::Picture;
use nom_de_plante::processor::{
    alpha_mode_from_code, bayer_color, bayer_dematricing, color_mode_from_code,
    composite_reconstruct, interleaved_reconstruct, neighborhood, number_of_channels,
    order_mode_from_code, order_signal, reconstruct_image, signal_index, split_colors, Flag,
    Neighborhood,
};
use nom_de_plante::ui::Ui;

/// A 3 x 2 picture whose bytes count up from 0.
fn counting_picture() -> Picture {
    Picture::new((0..24).collect(), 3, 2)
}

#[test]
fn get_pixel_reads_four_bytes_at_its_offset() {
    let picture = counting_picture();
    assert_eq!(picture.get_pixel(0, 0), [0, 1, 2, 3]);
    assert_eq!(picture.get_pixel(2, 0), [8, 9, 10, 11]);
    assert_eq!(picture.get_pixel(1, 1), [16, 17, 18, 19]);
    assert_eq!(picture.get_pixel_color(2, 1, 3), 23);
    assert_eq!(picture.get_lenght(), 24);
    assert_eq!(picture.get_raw_data(), (0..24).collect::<Vec<u8>>());
}

#[test]
fn pixel_past_the_end_wraps_to_the_first() {
    let picture = counting_picture();
    assert_eq!(picture.get_pixel(0, 2), [0, 1, 2, 3]);
    assert_eq!(picture.get_pixel(5, 5), [0, 1, 2, 3]);
}

#[test]
fn set_pixel_then_get_gives_it_back_and_spares_the_rest() {
    let mut picture = counting_picture();
    picture.set_pixel(1, 0, [200, 201, 202, 203]);
    assert_eq!(picture.get_pixel(1, 0), [200, 201, 202, 203]);
    assert_eq!(picture.get_pixel(0, 0), [0, 1, 2, 3]);
    assert_eq!(picture.get_pixel(2, 0), [8, 9, 10, 11]);
    assert_eq!(picture.get_lenght(), 24);
    assert_eq!(picture.width, 3);
    assert_eq!(picture.height, 2);
}

#[test]
fn orders_read_every_pixel_in_their_own_order() {
    let picture = counting_picture();
    let first_bytes = |order: OrderMode| -> Vec<u8> {
        order_signal(&picture, order).iter().map(|p| p[0]).collect()
    };
    assert_eq!(first_bytes(OrderMode::Row), vec![0, 4, 8, 12, 16, 20]);
    assert_eq!(first_bytes(OrderMode::Column), vec![0, 12, 4, 16, 8, 20]);
    assert_eq!(first_bytes(OrderMode::ReverseRow), vec![8, 4, 0, 20, 16, 12]);
    assert_eq!(first_bytes(OrderMode::ReverseColumn), vec![12, 0, 16, 4, 20, 8]);
}

#[test]
fn composite_lanes_hold_one_channel_each() {
    let picture = counting_picture();
    let ordered = order_signal(&picture, OrderMode::Row);
    let signal = split_colors(&ordered, 3, 2, OrderMode::Row, ColorMode::Composite, 3, false);
    let values: Vec<u8> = signal.iter().map(|s| s.0).collect();
    assert_eq!(values, vec![0, 4, 8, 12, 16, 20, 1, 5, 9, 13, 17, 21, 2, 6, 10, 14, 18, 22]);
    let flags: Vec<Flag> = signal.iter().map(|s| s.1).collect();
    for (k, flag) in flags.iter().enumerate() {
        let expected = if (k % 6) % 3 == 0 { Flag::Reset } else { Flag::Continue };
        assert_eq!(*flag, expected);
    }
}

#[test]
fn continuous_signal_never_resets() {
    let picture = counting_picture();
    let ordered = order_signal(&picture, OrderMode::Column);
    for mode in [ColorMode::Composite, ColorMode::Interleaved, ColorMode::Bayer] {
        let signal = split_colors(&ordered, 3, 2, OrderMode::Column, mode, 4, true);
        assert!(signal.iter().all(|s| s.1 == Flag::Continue));
    }
}

#[test]
fn interleaved_signal_keeps_channels_together() {
    let picture = counting_picture();
    let ordered = order_signal(&picture, OrderMode::Row);
    let signal = split_colors(&ordered, 3, 2, OrderMode::Row, ColorMode::Interleaved, 3, false);
    let values: Vec<u8> = signal.iter().map(|s| s.0).collect();
    assert_eq!(values, vec![0, 1, 2, 4, 5, 6, 8, 9, 10, 12, 13, 14, 16, 17, 18, 20, 21, 22]);
    assert_eq!(signal[0].1, Flag::Reset);
    assert_eq!(signal[9].1, Flag::Reset);
    assert_eq!(signal[3].1, Flag::Continue);
}

#[test]
fn bayer_signal_samples_one_channel_per_pixel() {
    let picture = counting_picture();
    let ordered = order_signal(&picture, OrderMode::Row);
    let signal = split_colors(&ordered, 3, 2, OrderMode::Row, ColorMode::Bayer, 3, false);
    // the column parity flips at every pixel, the row parity at every line start
    let values: Vec<u8> = signal.iter().map(|s| s.0).collect();
    assert_eq!(values, vec![1, 6, 9, 13, 16, 21]);
    let flags: Vec<Flag> = signal.iter().map(|s| s.1).collect();
    assert_eq!(
        flags,
        vec![Flag::Continue, Flag::Continue, Flag::Continue, Flag::Reset, Flag::Continue, Flag::Continue]
    );
}

#[test]
fn rebuilding_the_unchanged_signal_gives_the_picture_back() {
    let picture = counting_picture();
    for order in [OrderMode::Row, OrderMode::Column, OrderMode::ReverseRow, OrderMode::ReverseColumn] {
        for color in [ColorMode::Composite, ColorMode::Interleaved] {
            for alpha in [AlphaMode::Preserve, AlphaMode::Interleave] {
                let channels = number_of_channels(alpha);
                let ordered = order_signal(&picture, order);
                let signal = split_colors(&ordered, 3, 2, order, color, channels, false);
                let processed: Vec<u8> = signal.iter().map(|s| s.0).collect();
                let mut output = Picture::new(vec![7; 24], 3, 2);
                reconstruct_image(&processed, &Vec::new(), &picture, &mut output, 3, 2, order, color, alpha, channels);
                assert_eq!(output.get_raw_data(), picture.get_raw_data());
            }
        }
    }
}

#[test]
fn deleted_alpha_becomes_opaque() {
    let picture = counting_picture();
    let ordered = order_signal(&picture, OrderMode::Row);
    let signal = split_colors(&ordered, 3, 2, OrderMode::Row, ColorMode::Composite, 3, false);
    let processed: Vec<u8> = signal.iter().map(|s| s.0).collect();
    let mut output = counting_picture();
    reconstruct_image(&processed, &Vec::new(), &picture, &mut output, 3, 2, OrderMode::Row, ColorMode::Composite, AlphaMode::Delete, 3);
    assert_eq!(output.get_pixel(1, 1), [16, 17, 18, 255]);
}

#[test]
fn bayer_rebuild_takes_the_demosaiced_colors() {
    let picture = counting_picture();
    let rgb: Vec<[u8; 3]> = (0..6).map(|i| [i, i + 10, i + 20]).collect();
    let mut output = counting_picture();
    reconstruct_image(&Vec::new(), &rgb, &picture, &mut output, 3, 2, OrderMode::Column, ColorMode::Bayer, AlphaMode::Preserve, 3);
    assert_eq!(output.get_pixel(2, 1), [5, 15, 25, 23]);
    reconstruct_image(&Vec::new(), &rgb, &picture, &mut output, 3, 2, OrderMode::Row, ColorMode::Bayer, AlphaMode::Interleave, 3);
    assert_eq!(output.get_pixel(0, 1), [3, 13, 23, 255]);
}

#[test]
fn single_pixel_rebuilds() {
    let source = counting_picture();
    let processed: Vec<u8> = (100..112).collect();
    let mut output = counting_picture();
    composite_reconstruct(&processed, &source, &mut output, AlphaMode::Interleave, 3, 1, 0, 2);
    assert_eq!(output.get_pixel(1, 0), [102, 105, 108, 111]);
    interleaved_reconstruct(&processed, &source, &mut output, AlphaMode::Preserve, 0, 1, 4);
    assert_eq!(output.get_pixel(0, 1), [104, 105, 106, 15]);
    interleaved_reconstruct(&processed, &source, &mut output, AlphaMode::Delete, 2, 1, 0);
    assert_eq!(output.get_pixel(2, 1), [100, 101, 102, 255]);
}

#[test]
fn mode_codes_name_modes() {
    assert_eq!(alpha_mode_from_code(0), AlphaMode::Preserve);
    assert_eq!(alpha_mode_from_code(1), AlphaMode::Interleave);
    assert_eq!(alpha_mode_from_code(2), AlphaMode::Delete);
    assert_eq!(alpha_mode_from_code(9), AlphaMode::Delete);
    assert_eq!(order_mode_from_code(0), OrderMode::Row);
    assert_eq!(order_mode_from_code(1), OrderMode::Column);
    assert_eq!(order_mode_from_code(2), OrderMode::ReverseRow);
    assert_eq!(order_mode_from_code(3), OrderMode::ReverseColumn);
    assert_eq!(order_mode_from_code(70), OrderMode::ReverseColumn);
    assert_eq!(color_mode_from_code(0), ColorMode::Composite);
    assert_eq!(color_mode_from_code(1), ColorMode::Interleaved);
    assert_eq!(color_mode_from_code(5), ColorMode::Bayer);
    assert_eq!(number_of_channels(AlphaMode::Interleave), 4);
    assert_eq!(number_of_channels(AlphaMode::Preserve), 3);
    assert_eq!(number_of_channels(AlphaMode::Delete), 3);
}

#[test]
fn bayer_pattern_and_neighbours() {
    assert_eq!(bayer_color(0, 0), 1);
    assert_eq!(bayer_color(1, 0), 0);
    assert_eq!(bayer_color(0, 1), 2);
    assert_eq!(bayer_color(3, 5), 1);
    assert_eq!(
        bayer_dematricing(4, 4, 2),
        [Some(Neighborhood::Center), Some(Neighborhood::StraightCross), Some(Neighborhood::ObliqueCross)]
    );
    assert_eq!(
        bayer_dematricing(4, 3, 1),
        [Some(Neighborhood::Horizontal), Some(Neighborhood::Center), Some(Neighborhood::Vertical)]
    );
    assert_eq!(
        bayer_dematricing(4, 2, 1),
        [Some(Neighborhood::Vertical), Some(Neighborhood::Center), Some(Neighborhood::Horizontal)]
    );
    assert_eq!(
        bayer_dematricing(0, 0, 0),
        [Some(Neighborhood::ObliqueCross), Some(Neighborhood::StraightCross), Some(Neighborhood::Center)]
    );
    assert_eq!(bayer_dematricing(0, 0, 7), [None, None, None]);
    assert_eq!(neighborhood(Neighborhood::StraightCross, 0, 5), vec![(0, 5), (1, 5), (0, 4), (0, 6)]);
    assert_eq!(neighborhood(Neighborhood::ObliqueCross, 2, 0), vec![(1, 0), (3, 1), (3, 0), (1, 1)]);
    assert_eq!(neighborhood(Neighborhood::Horizontal, 2, 2), vec![(1, 2), (3, 2)]);
    assert_eq!(neighborhood(Neighborhood::Vertical, 2, 2), vec![(2, 1), (2, 3)]);
    assert_eq!(neighborhood(Neighborhood::Center, 2, 2), vec![(2, 2)]);
    assert_eq!(signal_index(2, 1, 3, 6), 5);
    assert_eq!(signal_index(3, 1, 3, 6), 0);
}

#[test]
fn delay_line_reads_back_after_its_delay() {
    let mut ring = SimpleRingBuffer::new(5, 3);
    let mut outputs = Vec::new();
    for value in [10u8, 20, 30, 40, 50, 60] {
        outputs.push(ring.current_output());
        assert!(!ring.advance(value, 0));
    }
    assert_eq!(outputs, vec![0, 0, 0, 10, 20, 30]);
    // feedback is added with wrapping at 256
    let mut ring = SimpleRingBuffer::new(4, 1);
    ring.advance(250, 10);
    assert_eq!(ring.current_output(), 4);
}

#[test]
fn zero_delay_meets_at_once_and_delay_is_held_below_size() {
    let mut ring = SimpleRingBuffer::new(3, 0);
    assert!(ring.advance(9, 0));
    let mut ring = SimpleRingBuffer::new(3, 1);
    ring.advance(9, 0);
    ring.set_delay(50);
    // delay held at size - 1 = 2, ring silenced
    assert_eq!(ring.current_output(), 0);
    ring.advance(1, 0);
    ring.advance(2, 0);
    assert_eq!(ring.current_output(), 1);
    ring.advance(3, 0);
    ring.flush();
    assert_eq!(ring.current_output(), 0);
}

#[test]
fn slider_steps_are_held_within_bounds() {
    let mut slider = Slider::new("Delay", 0, 10, 9, 3);
    slider.increment();
    assert_eq!(slider.get(), 10);
    slider.decrement();
    assert_eq!(slider.get(), 7);
    let mut low = Slider::new("Low", 0, 10, 1, 3);
    low.decrement();
    assert_eq!(low.get(), 0);
}

#[test]
fn mode_steps_stop_at_the_ends() {
    let mut mode = Mode::new("Order Mode", &["Row", "Column"], &[OrderMode::Row, OrderMode::Column]);
    assert_eq!(*mode.get(), OrderMode::Row);
    mode.decrement();
    assert_eq!(mode.value, 0);
    mode.increment();
    mode.increment();
    assert_eq!(mode.value, 1);
    assert_eq!(*mode.get(), OrderMode::Column);
    assert_eq!(mode.build_string(), "Order Mode - Column");
}

#[test]
fn toggle_flips_both_ways() {
    let mut toggle = Toggle::new("Continuous", false);
    toggle.increment();
    assert!(toggle.get());
    toggle.decrement();
    assert!(!toggle.get());
    assert_eq!(toggle.build_string(), "Continuous - false");
    toggle.increment();
    assert_eq!(toggle.build_string(), "Continuous - true");
}

#[test]
fn slider_descriptions_write_the_value_in_decimal() {
    assert_eq!(Slider::new("Delay", 0, 10, 0, 1).build_string(), "Delay - 0");
    assert_eq!(Slider::new("Cutoff", 0, 10, 100000, 1).build_string(), "Cutoff - 100000");
    assert_eq!(Slider::new("Low", -50, 10, -42, 1).build_string(), "Low - -42");
    assert_eq!(Slider::new("Min", i32::MIN, 0, i32::MIN, 1).build_string(), "Min - -2147483648");
    assert_eq!(Slider::new("Max", 0, i32::MAX, i32::MAX, 1).build_string(), "Max - 2147483647");
}

#[test]
fn parameters_start_as_the_interface_shows_them() {
    let parameters = Parameters::new();
    assert_eq!(parameters.parameter_amount, 8);
    assert_eq!(
        parameters.build_strings(),
        vec![
            "Alpha Mode - Delete",
            "Color Mode - Composite",
            "Order Mode - Row",
            "Delay - 0",
            "Feedback - 0",
            "Cutoff - 100000",
            "Resonance - 1",
            "Continuous - false",
        ]
    );
    assert_eq!(*parameters.color_mode.get(), ColorMode::Composite);
    assert_eq!(parameters.filter_cutoff.get(), 100000);
}

#[test]
fn cursor_moves_within_the_parameters_and_steps_the_selected_one() {
    let mut parameters = Parameters::new();
    let mut ui = Ui::new(&mut parameters);
    assert_eq!(ui.position(), 0);
    ui.decrement_position();
    assert_eq!(ui.position(), 0);
    ui.increment_parameter(&mut parameters);
    assert_eq!(*parameters.alpha_mode.get(), AlphaMode::Preserve);
    for _ in 0..20 {
        ui.increment_position();
    }
    assert_eq!(ui.position(), 7);
    ui.increment_parameter(&mut parameters);
    assert!(parameters.continuous.get());
    ui.decrement_position();
    ui.decrement_position();
    ui.decrement_parameter(&mut parameters);
    assert_eq!(parameters.filter_cutoff.get(), 99000);
    ui.increment_parameter(&mut parameters);
    assert_eq!(parameters.filter_cutoff.get(), 100000);
    let mut count = Parameters::new();
    count.parameter_amount = 0;
    count.count_param();
    assert_eq!(count.parameter_amount, 8);
}

#[test]
fn deleting_alpha_makes_the_whole_picture_opaque_and_keeps_the_colors() {
    let picture = counting_picture();
    let expected: Vec<u8> = (0..24u8).map(|b| if b % 4 == 3 { 255 } else { b }).collect();
    for order in [OrderMode::Row, OrderMode::Column, OrderMode::ReverseRow, OrderMode::ReverseColumn] {
        for color in [ColorMode::Composite, ColorMode::Interleaved] {
            let channels = number_of_channels(AlphaMode::Delete);
            let ordered = order_signal(&picture, order);
            let signal = split_colors(&ordered, 3, 2, order, color, channels, true);
            let processed: Vec<u8> = signal.iter().map(|s| s.0).collect();
            let mut output = counting_picture();
            reconstruct_image(&processed, &Vec::new(), &picture, &mut output, 3, 2, order, color, AlphaMode::Delete, channels);
            assert_eq!(output.get_raw_data(), expected);
        }
    }
}

#[test]
fn grid_accessibility_follows_the_data_length() {
    assert!(counting_picture().grid_accessible(3, 2));
    // pixels past the end wrap to the first one
    assert!(Picture::new(vec![0; 8], 3, 2).grid_accessible(3, 2));
    // a pixel starting inside the data but ending past it cannot be read
    assert!(!Picture::new(vec![0; 10], 3, 2).grid_accessible(3, 2));
    assert!(!Picture::new(vec![0; 3], 3, 2).grid_accessible(3, 2));
    assert!(Picture::new(vec![0; 3], 3, 2).grid_accessible(0, 2));
}
