use cpu_telemetry::sampler::Sampler;

#[test]
fn first_reading_fixes_the_number_of_cores() {
    let sampler = Sampler::new(vec![10.0f32, 20.0, 30.0, 40.0]);
    assert_eq!(sampler.cores(), 4);
    assert_eq!(sampler.sample(), &[10.0f32, 20.0, 30.0, 40.0]);
}

#[test]
fn reading_of_the_same_width_becomes_the_sample() {
    let mut sampler = Sampler::new(vec![0.0f32, 0.0]);
    assert!(sampler.record(vec![12.5, 99.0]));
    assert_eq!(sampler.sample(), &[12.5f32, 99.0]);
    assert!(sampler.record(vec![1.0, 2.0]));
    assert_eq!(sampler.sample(), &[1.0f32, 2.0]);
    assert_eq!(sampler.cores(), 2);
}

#[test]
fn short_reading_leaves_the_last_sample_standing() {
    let mut sampler = Sampler::new(vec![5u32, 6, 7]);
    assert!(sampler.record(vec![8, 9, 10]));
    assert!(!sampler.record(vec![1, 2]));
    assert_eq!(sampler.sample(), &[8, 9, 10]);
    assert!(!sampler.record(Vec::new()));
    assert_eq!(sampler.sample(), &[8, 9, 10]);
    assert_eq!(sampler.cores(), 3);
}

#[test]
fn long_reading_leaves_the_last_sample_standing() {
    let mut sampler = Sampler::new(vec![5u32, 6]);
    assert!(!sampler.record(vec![1, 2, 3]));
    assert_eq!(sampler.sample(), &[5, 6]);
    assert_eq!(sampler.cores(), 2);
}

#[test]
fn machine_without_cores_samples_nothing() {
    let mut sampler: Sampler<f32> = Sampler::new(Vec::new());
    assert_eq!(sampler.cores(), 0);
    assert!(sampler.record(Vec::new()));
    assert!(!sampler.record(vec![50.0]));
    assert!(sampler.sample().is_empty());
}

#[test]
fn sample_width_is_the_same_on_every_tick() {
    let mut sampler = Sampler::new(vec![0u8; 8]);
    for tick in 0..100usize {
        let width = if tick % 7 == 3 { tick % 5 } else { 8 };
        sampler.record(vec![tick as u8; width]);
        assert_eq!(sampler.sample().len(), 8);
        assert_eq!(sampler.cores(), 8);
    }
}
