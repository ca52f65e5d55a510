use nom_de_plante::buffer::SimpleRingBuffer;
use nom_de_plante::parameters::{AlphaMode, ColorMode, OrderMode};
use nom_de_plante::picture::Picture;
use nom_de_plante::processor::{
    number_of_channels, order_signal, reconstruct_image, split_colors, Flag,
};

/// One step of a feedback delay over the byte ring: read, feed back, write.
fn process(ring: &mut SimpleRingBuffer, feedback: f32, input_sample: f32) -> f32 {
    let output = ring.current_output() as f32;
    let fed_back = output * feedback;
    let met = ring.advance(input_sample as u8, fed_back as u8);
    if met {
        input_sample
    } else {
        output
    }
}

#[test]
fn pixel_set_and_get() {
    let width = 1000;
    let height = 1000;
    let size = width + height * 4;
    let raw_data = vec![255 as u8; size];
    let mut picture = Picture::new(raw_data, width, height);
    let pixel = [0, 0, 0, 0];
    picture.set_pixel(750, 750, pixel);
    let output_pixel = picture.get_pixel(750, 750);
    assert_eq!(pixel, output_pixel);
}

#[test]
fn simple_ringbuffer() {
    let mut ringbuffer = SimpleRingBuffer::new(300, 4);
    let feedback = 0.0;
    let sample_one = process(&mut ringbuffer, feedback, 255.0);
    let sample_two = process(&mut ringbuffer, feedback, 0.0);
    let sample_three = process(&mut ringbuffer, feedback, 0.0);
    let sample_four = process(&mut ringbuffer, feedback, 0.0);
    let sample_five = process(&mut ringbuffer, feedback, 0.0);

    // 0.0 0.0 0.0 0.0 0.0
    assert_eq!(sample_one, 0.0);
    assert_eq!(sample_two, 0.0);
    assert_eq!(sample_three, 0.0);
    assert_eq!(sample_four, 0.0);
    assert_eq!(sample_five, 255.0);

    ringbuffer.set_delay(1);

    let sample_six = process(&mut ringbuffer, feedback, 255.0);
    let sample_seven = process(&mut ringbuffer, feedback, 0.0);

    assert_eq!(sample_six, 0.0);
    assert_eq!(sample_seven, 255.0);
}

#[test]
fn set_delay() {
    let mut ringbuffer = SimpleRingBuffer::new(300, 4);
    let feedback = 0.0;
    let mut sample_one = process(&mut ringbuffer, feedback, 255.0);
    let mut sample_two = process(&mut ringbuffer, feedback, 0.0);
    let mut sample_three = process(&mut ringbuffer, feedback, 0.0);
    let mut sample_four = process(&mut ringbuffer, feedback, 0.0);
    let mut sample_five = process(&mut ringbuffer, feedback, 0.0);

    ringbuffer.set_delay(3);
    sample_one = process(&mut ringbuffer, feedback, 255.0);
    sample_two = process(&mut ringbuffer, feedback, 0.0);
    sample_three = process(&mut ringbuffer, feedback, 0.0);
    sample_four = process(&mut ringbuffer, feedback, 0.0);
    sample_five = process(&mut ringbuffer, feedback, 0.0);

    // 0.0 0.0 0.0 0.0 0.0
    assert_eq!(sample_one, 0.0);
    assert_eq!(sample_two, 0.0);
    assert_eq!(sample_three, 0.0);
    assert_eq!(sample_four, 255.0);
    assert_eq!(sample_five, 0.0);

    ringbuffer.set_delay(1);

    let sample_six = process(&mut ringbuffer, feedback, 255.0);
    let sample_seven = process(&mut ringbuffer, feedback, 0.0);

    assert_eq!(sample_six, 0.0);
    assert_eq!(sample_seven, 255.0);
}

#[test]
fn flags_row_composite() {
    let width = 9;
    let height = 9;
    let size = width * height * 4;
    let raw_data = vec![255 as u8; size];
    let picture = Picture::new(raw_data, width, height);
    // the default parameters: composite, rows, alpha deleted, not continuous
    assert_eq!(picture.get_lenght(), size);
    let ordered = order_signal(&picture, OrderMode::Row);
    let signal = split_colors(&ordered, width, height, OrderMode::Row, ColorMode::Composite, 3, false);
    // R R R R R R R R R
    // R R R R R R R R R
    // ...
    // G G G G G G G G G
    assert_eq!(signal[0].1, Flag::Reset); // first R of first row
    assert_eq!(signal[width].1, Flag::Reset); // first R of second row
    assert_eq!(signal[(width) - 1].1, Flag::Continue); // last R of first row
    assert_eq!(signal[(width) + 1].1, Flag::Continue); // second R of second row
    assert_eq!(signal[width * height].1, Flag::Reset); //first G of first row
    assert_eq!(signal[width * height + width].1, Flag::Reset); //first G of second row
}

#[test]
fn flags_row_interleaved() {
    let width = 9;
    let height = 9;
    let size = width * height * 4;
    let raw_data = vec![255 as u8; size];
    let picture = Picture::new(raw_data, width, height);
    assert_eq!(picture.get_lenght(), size);
    let channels = number_of_channels(AlphaMode::Interleave);
    let ordered = order_signal(&picture, OrderMode::Row);
    let signal = split_colors(&ordered, width, height, OrderMode::Row, ColorMode::Interleaved, channels, false);

    // 1234 5678 9,10,11,12 13,14,15,16 17,18,19,20 21,22,23,24  25,26,27,28 29,30,31,32  33,34,35,36
    // RGBA RGBA    RGBA        RGBA       RGBA       RGBA       RGBA         RGBA         RGBA
    // RGBA RGBA RGBA RGBA RGBA RGBA RGBA RGBA RGBA
    assert_eq!(signal[0].1, Flag::Reset); // first pixel of first row
    assert_eq!(signal[36].1, Flag::Reset); // first pixel of second row
    assert_eq!(signal[(width * 4) - 1].1, Flag::Continue); // Last A of first row
    assert_eq!(signal[(width * 4) + 1].1, Flag::Continue); // first G of second row
    assert_eq!(signal[width * 2 * 4].1, Flag::Reset); // first R of third row
}

#[test]
fn iterator_assumptions() {
    for i in (0..4).rev() {
        println!("{}", i);
    }
}

#[test]
fn reverse_iteration_ordering() {
    let width = 9;
    let height = 9;
    let size = width * height * 4;
    let raw_data = vec![255 as u8; size];
    let picture = Picture::new(raw_data, width, height);
    assert_eq!(picture.get_lenght(), size);
    let channels = number_of_channels(AlphaMode::Interleave);
    let ordered = order_signal(&picture, OrderMode::ReverseRow);
    assert_eq!(ordered.len(), width * height);
    let signal = split_colors(
        &ordered,
        width,
        height,
        OrderMode::ReverseRow,
        ColorMode::Interleaved,
        channels,
        false,
    );
    assert_eq!(signal.len(), size);

    let processed: Vec<u8> = signal.iter().map(|(value, _)| *value).collect();
    let mut output = picture.clone();
    reconstruct_image(
        &processed,
        &Vec::new(),
        &picture,
        &mut output,
        width,
        height,
        OrderMode::ReverseRow,
        ColorMode::Interleaved,
        AlphaMode::Interleave,
        channels,
    );
}
