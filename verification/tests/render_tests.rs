use rayforge::render::{chunk_count, claim_rows, ppm_header, thread_count, ChunkAssembler, CHUNK_ROWS};

#[test]
fn claims_bands_of_eight_rows() {
    assert_eq!(CHUNK_ROWS, 8);
    assert_eq!(claim_rows(0, 20), Some((0, 8)));
    assert_eq!(claim_rows(8, 20), Some((8, 16)));
    assert_eq!(claim_rows(16, 20), Some((16, 20)));
    assert_eq!(claim_rows(24, 20), None);
    assert_eq!(claim_rows(20, 20), None);
    assert_eq!(claim_rows(0, 0), None);
    assert_eq!(claim_rows(usize::MAX - 3, usize::MAX), Some((usize::MAX - 3, usize::MAX)));
}

#[test]
fn every_row_is_claimed_exactly_once() {
    for height in 0..100usize {
        let mut owner = vec![0u32; height];
        let mut counter = 0;
        while let Some((start, end)) = claim_rows(counter, height) {
            for row in start..end {
                owner[row] += 1;
            }
            counter += CHUNK_ROWS;
        }
        assert!(owner.iter().all(|&n| n == 1));
        assert_eq!(counter / CHUNK_ROWS, chunk_count(height));
    }
}

#[test]
fn chunk_count_is_ceiling_division() {
    assert_eq!(chunk_count(0), 0);
    assert_eq!(chunk_count(1), 1);
    assert_eq!(chunk_count(8), 1);
    assert_eq!(chunk_count(9), 2);
    assert_eq!(chunk_count(1080), 135);
    assert_eq!(chunk_count(usize::MAX), usize::MAX / 8 + 1);
}

#[test]
fn thread_count_choices() {
    assert_eq!(thread_count(Some(3), Some(16), 1080), 3);
    assert_eq!(thread_count(Some(0), Some(16), 1080), 0);
    assert_eq!(thread_count(None, Some(16), 1080), 16);
    assert_eq!(thread_count(None, Some(16), 4), 4);
    assert_eq!(thread_count(None, None, 1080), 1);
    assert_eq!(thread_count(None, None, 0), 0);
}

#[test]
fn ppm_header_text() {
    assert_eq!(ppm_header(1920, 1080), "P6\n1920 1080\n255\n");
    assert_eq!(ppm_header(0, 7), "P6\n0 7\n255\n");
}

#[test]
fn assembles_bands_in_image_order_whatever_the_arrival_order() {
    let height = 20;
    let mut a = ChunkAssembler::new(height);
    assert!(!a.is_complete());
    assert_eq!(a.receive(16, 20, vec![3, 3]), 16);
    assert!(!a.is_complete());
    assert_eq!(a.receive(0, 8, vec![1]), 8);
    assert_eq!(a.receive(8, 16, vec![2, 2, 2]), 0);
    assert!(a.is_complete());
    assert_eq!(a.into_bytes(), vec![1, 2, 2, 2, 3, 3]);

    let mut b = ChunkAssembler::new(height);
    b.receive(0, 8, vec![1]);
    b.receive(8, 16, vec![2, 2, 2]);
    b.receive(16, 20, vec![3, 3]);
    assert_eq!(b.into_bytes(), vec![1, 2, 2, 2, 3, 3]);
}

#[test]
fn empty_image_is_complete_at_once() {
    let a = ChunkAssembler::new(0);
    assert!(a.is_complete());
    assert_eq!(a.into_bytes(), Vec::<u8>::new());
}

#[test]
fn a_band_is_filed_by_the_band_its_first_row_falls_in() {
    let mut a = ChunkAssembler::new(12);
    assert_eq!(a.receive(3, 8, vec![1]), 7);
    assert_eq!(a.receive(8, 12, vec![2]), 3);
    assert_eq!(a.received_rows(), 9);
    assert_eq!(a.image_height(), 12);
    assert_eq!(a.into_bytes(), vec![1, 2]);
}
