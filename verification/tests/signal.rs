use da_core::signal::{
    buffer_position, channel_buffers, downsample_row, gather_frame, interleave_into,
    perform_due, read_frame, reads_input_channel, scatter_frame, upsample_row,
};

#[test]
fn upsampling_holds_samples() {
    let mut row = vec![9.0f64; 8];
    upsample_row(&mut row, &[1.0, 2.0, 3.0], 2, 3);
    assert_eq!(row, vec![1.0, 1.0, 1.0, 2.0, 2.0, 2.0, 9.0, 9.0]);
}

#[test]
fn upsampling_by_zero_leaves_the_row() {
    let mut row = vec![9.0f64; 4];
    upsample_row(&mut row, &[1.0, 2.0, 3.0], 3, 0);
    assert_eq!(row, vec![9.0; 4]);
}

#[test]
fn downsampling_takes_every_factor_th() {
    let row = vec![1, 1, 1, 2, 2, 2, 3, 3, 3];
    assert_eq!(downsample_row(&row, 3, 3), vec![1, 2, 3]);
    assert_eq!(downsample_row(&row, 0, 3), Vec::<i32>::new());
}

#[test]
fn downsample_of_upsample_gives_input_back() {
    let input = [0.5f64, -0.25, 0.125, 1.0];
    for factor in 1..5usize {
        let mut row = vec![0.0f64; 4 * factor];
        upsample_row(&mut row, &input, 4, factor);
        assert_eq!(downsample_row(&row, 4, factor), input.to_vec());
    }
}

#[test]
fn frames_move_between_buffers() {
    let mut samples = channel_buffers(0.0f64, 3, 4);
    assert_eq!(samples, vec![vec![0.0; 4]; 3]);
    let mut buf = [7.0f64; 32];
    buf[0] = 1.0;
    buf[1] = 2.0;
    scatter_frame(&mut samples, &buf, 2, 3);
    assert_eq!(samples[0], vec![0.0, 0.0, 0.0, 1.0]);
    assert_eq!(samples[1], vec![0.0, 0.0, 0.0, 2.0]);
    assert_eq!(samples[2], vec![0.0; 4]);
    let mut out = [5.0f64; 32];
    gather_frame(&samples, &mut out, 3, 3);
    assert_eq!(&out[..4], &[1.0, 2.0, 0.0, 5.0]);
}

#[test]
fn interleaving() {
    let samples = vec![vec![1, 2, 3], vec![10, 20, 30]];
    let mut spin = vec![0; 7];
    interleave_into(&mut spin, &samples, 2, 3);
    assert_eq!(spin, vec![1, 10, 2, 20, 3, 30, 0]);
    let mut none = vec![4; 2];
    interleave_into(&mut none, &samples, 0, 3);
    assert_eq!(none, vec![4, 4]);
}

#[test]
fn reading_a_frame() {
    let spout = vec![1, 10, 2, 20, 3, 30];
    let mut out = [0; 32];
    read_frame(&spout, 2, 2, &mut out);
    assert_eq!(&out[..3], &[3, 30, 0]);
}

#[test]
fn engine_timing() {
    assert!(perform_due(0, 16));
    assert!(!perform_due(15, 16));
    assert!(perform_due(32, 16));
    assert_eq!(buffer_position(300, 256, 1), 44);
    assert_eq!(buffer_position(5000, 256, 16), 5000 % 4096);
}

#[test]
fn input_channels_that_are_read() {
    assert!(reads_input_channel(0, 0));
    assert!(reads_input_channel(2, 2));
    assert!(!reads_input_channel(3, 2));
}
