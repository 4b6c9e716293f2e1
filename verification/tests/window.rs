use mfcc::window::SampleWindow;

fn contents(window: &SampleWindow) -> Vec<i16> {
    let mut samples = Vec::new();
    let mut index = 0;
    while let Some(sample) = window.get(index) {
        samples.push(sample);
        index += 1;
    }
    samples
}

#[test]
fn new_window_is_silent() {
    let window = SampleWindow::new(4);
    assert_eq!(window.len(), 4);
    assert_eq!(contents(&window), vec![0, 0, 0, 0]);
    assert_eq!(window.get(3), Some(0));
    assert_eq!(window.get(4), None);
    assert_eq!(window.get(usize::MAX), None);
}

#[test]
fn block_joins_at_the_back_and_oldest_leave() {
    let mut window = SampleWindow::new(4);
    window.append_back(&[1, 2]);
    assert_eq!(contents(&window), vec![0, 0, 1, 2]);
    window.append_back(&[3, 4]);
    assert_eq!(contents(&window), vec![1, 2, 3, 4]);
    window.append_back(&[5, 6]);
    assert_eq!(contents(&window), vec![3, 4, 5, 6]);
    assert_eq!(window.len(), 4);
}

#[test]
fn blocks_of_uneven_length_wrap_around_the_ring() {
    let mut window = SampleWindow::new(5);
    window.append_back(&[1, 2, 3]);
    assert_eq!(contents(&window), vec![0, 0, 1, 2, 3]);
    window.append_back(&[4]);
    assert_eq!(contents(&window), vec![0, 1, 2, 3, 4]);
    window.append_back(&[5, 6, 7, 8]);
    assert_eq!(contents(&window), vec![4, 5, 6, 7, 8]);
    assert_eq!(window.get(0), Some(4));
    assert_eq!(window.get(4), Some(8));
    assert_eq!(window.get(5), None);
}

#[test]
fn block_longer_than_window_leaves_its_last_samples() {
    let mut window = SampleWindow::new(3);
    window.append_back(&[1, 2, 3, 4, 5]);
    assert_eq!(contents(&window), vec![3, 4, 5]);
    window.append_back(&[-1, -2, -3, -4, -5, -6, -7]);
    assert_eq!(contents(&window), vec![-5, -6, -7]);
}

#[test]
fn block_as_long_as_window_replaces_it() {
    let mut window = SampleWindow::new(3);
    window.append_back(&[7]);
    window.append_back(&[i16::MIN, 0, i16::MAX]);
    assert_eq!(contents(&window), vec![i16::MIN, 0, i16::MAX]);
}

#[test]
fn empty_block_changes_nothing() {
    let mut window = SampleWindow::new(3);
    window.append_back(&[1, 2]);
    window.append_back(&[]);
    assert_eq!(contents(&window), vec![0, 1, 2]);
}

#[test]
fn window_of_no_samples_stays_empty() {
    let mut window = SampleWindow::new(0);
    assert_eq!(window.len(), 0);
    assert_eq!(window.get(0), None);
    window.append_back(&[1, 2, 3]);
    assert_eq!(window.len(), 0);
    assert_eq!(window.get(0), None);
}

#[test]
fn two_blocks_in_turn_equal_their_concatenation() {
    let mut in_turn = SampleWindow::new(5);
    in_turn.append_back(&[1, 2, 3]);
    in_turn.append_back(&[4, 5, 6, 7]);
    let mut at_once = SampleWindow::new(5);
    at_once.append_back(&[1, 2, 3, 4, 5, 6, 7]);
    assert_eq!(contents(&in_turn), contents(&at_once));
    assert_eq!(contents(&in_turn), vec![3, 4, 5, 6, 7]);
}

#[test]
fn silence_into_a_silent_window_leaves_silence() {
    let mut window = SampleWindow::new(160);
    window.append_back(&[0; 80]);
    window.append_back(&[0; 80]);
    assert_eq!(contents(&window), vec![0; 160]);
}

#[test]
fn windows_fed_alike_hold_alike() {
    let mut one = SampleWindow::new(6);
    let mut other = SampleWindow::new(6);
    let blocks: [&[i16]; 3] = [&[1, 2, 3, 4], &[5], &[6, 7, 8, 9, 10]];
    for block in blocks {
        one.append_back(block);
        other.append_back(block);
        assert_eq!(contents(&one), contents(&other));
    }
    assert_eq!(contents(&one), vec![5, 6, 7, 8, 9, 10]);
}

#[test]
fn weights_meet_each_sample_at_its_place() {
    let mut window = SampleWindow::new(5);
    window.append_back(&[1, 2, 3]);
    window.append_back(&[4, 5, 6, 7]);
    assert_eq!(contents(&window), vec![3, 4, 5, 6, 7]);
    let mut output: Vec<i64> = vec![-1; 5];
    window.apply_weights(&mut output, |place: usize, sample: i16| {
        1000 * place as i64 + i64::from(sample)
    });
    assert_eq!(output, vec![3, 1004, 2005, 3006, 4007]);
}

#[test]
fn weights_of_a_tapered_frame() {
    let mut window = SampleWindow::new(4);
    window.append_back(&[100, -200, 300, -400]);
    let taper = [0.0, 0.5, 1.0, 0.25];
    let mut output = vec![f64::NAN; 4];
    window.apply_weights(&mut output, |place: usize, sample: i16| f64::from(sample) * taper[place]);
    assert_eq!(output, vec![0.0, -100.0, 300.0, -100.0]);
}

#[test]
fn weighting_an_empty_window_asks_for_nothing() {
    let window = SampleWindow::new(0);
    let mut output: Vec<i64> = Vec::new();
    window.apply_weights(&mut output, |place: usize, _: i16| panic!("place {} was weighed", place));
    assert_eq!(output, Vec::<i64>::new());
}
