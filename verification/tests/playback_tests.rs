use audio_chat::open_playback;

#[test]
fn three_chunks_drain_across_three_callbacks_with_silence_tail() {
    // Chunks of 100, 30 and 50 samples, read back 80 samples at a time:
    // {80 of chunk1}, {20 of chunk1 + 30 of chunk2 + 30 of chunk3},
    // {20 of chunk3 + 60 silence}.
    let (handle, mut consumer) = open_playback();
    let c1: Vec<u32> = (0..100u32).map(|i| 1000 + i).collect();
    let c2: Vec<u32> = (0..30u32).map(|i| 2000 + i).collect();
    let c3: Vec<u32> = (0..50u32).map(|i| 3000 + i).collect();
    handle.add_samples(&c1);
    handle.add_samples(&c2);
    handle.add_samples(&c3);

    let mut out = vec![0u32; 80];

    consumer.fill(&mut out);
    assert_eq!(&out[..], &c1[0..80]);

    consumer.fill(&mut out);
    let mut expected2 = Vec::new();
    expected2.extend_from_slice(&c1[80..100]);
    expected2.extend_from_slice(&c2[..]);
    expected2.extend_from_slice(&c3[0..30]);
    assert_eq!(&out[..], &expected2[..]);

    consumer.fill(&mut out);
    let mut expected3 = Vec::new();
    expected3.extend_from_slice(&c3[30..50]);
    expected3.extend_from_slice(&[0u32; 60]);
    assert_eq!(&out[..], &expected3[..]);
}

#[test]
fn empty_queue_fills_with_silence() {
    let (_handle, mut consumer) = open_playback();
    let mut out = vec![7u32; 16];
    consumer.fill(&mut out);
    assert_eq!(out, vec![0u32; 16]);
}

#[test]
fn empty_chunks_are_not_enqueued() {
    let (handle, mut consumer) = open_playback();
    handle.add_samples(&[]);
    handle.add_samples(&[42]);
    let mut out = vec![9u32; 3];
    consumer.fill(&mut out);
    assert_eq!(out, vec![42, 0, 0]);
}

#[test]
fn a_push_onto_a_full_queue_drops_the_newest_chunk() {
    let (handle, mut consumer) = open_playback();
    // The queue holds 64 chunks; the 65th must be dropped silently.
    for i in 0..65u32 {
        handle.add_samples(&[100 + i]);
    }
    let mut out = vec![1u32; 65];
    consumer.fill(&mut out);
    for i in 0..64u32 {
        assert_eq!(out[i as usize], 100 + i);
    }
    assert_eq!(out[64], 0);
}

#[test]
fn leftover_carry_spans_many_small_reads() {
    let (handle, mut consumer) = open_playback();
    let chunk: Vec<u32> = (0..10u32).collect();
    handle.add_samples(&chunk);
    let mut out = vec![0u32; 3];
    consumer.fill(&mut out);
    assert_eq!(out, vec![0, 1, 2]);
    consumer.fill(&mut out);
    assert_eq!(out, vec![3, 4, 5]);
    consumer.fill(&mut out);
    assert_eq!(out, vec![6, 7, 8]);
    consumer.fill(&mut out);
    assert_eq!(out, vec![9, 0, 0]);
}

#[test]
fn cloned_handles_feed_the_same_queue() {
    let (handle, mut consumer) = open_playback();
    let other = handle.clone();
    handle.add_samples(&[1]);
    other.add_samples(&[2]);
    let mut out = vec![0u32; 2];
    consumer.fill(&mut out);
    assert_eq!(out, vec![1, 2]);
}
