use std::iter::repeat;
use v_voxels::rle::{RLEError, RLE};

fn runs_of(values: &[usize]) -> usize {
    if values.is_empty() {
        return 0;
    }
    1 + values.windows(2).filter(|w| w[0] != w[1]).count()
}

#[test]
fn get_set() {
    let mut r: RLE<usize> = RLE::from(repeat(0).take(10000).collect());
    println!("number: {}\t item: {}", r.compressed_len(), r.get(0).unwrap());
    println!("=========================");
    assert_eq!(r.set_range_singular(1, 0..20), Ok(()));
    println!("number: {}\t item: {}", r.compressed_len(), r.get(0).unwrap());
    println!("=========================");
    assert_eq!(r.set_range_singular(1, 20..25), Ok(()));
    println!("number: {}\t item: {}", r.compressed_len(), r.get(0).unwrap());
    assert_eq!(r.compressed_len(), 2);
    assert_eq!(r.get(24), Ok(1));
    assert_eq!(r.get(25), Ok(0));
    assert_eq!(r.raw_length, 10000);
}

#[test]
fn round_trip_reproduces_input() {
    let data: Vec<usize> = vec![3, 3, 3, 1, 1, 2, 3, 3, 0, 0, 0, 0, 7];
    let r = RLE::from(data.clone());
    assert_eq!(r.to_vec(), data);
    for (i, v) in data.iter().enumerate() {
        assert_eq!(r.get(i), Ok(*v));
    }
    assert_eq!(r.compressed_len(), 6);
    let mut it = r.iter();
    let mut walked = Vec::new();
    while let Some(v) = it.next() {
        walked.push(v);
    }
    assert_eq!(walked, data);
    assert_eq!(it.next(), None);
}

#[test]
fn iterator_restarts() {
    let r = RLE::from(vec![5usize, 5, 6]);
    let first: Vec<usize> = {
        let mut it = r.iter();
        let mut out = Vec::new();
        while let Some(v) = it.next() {
            out.push(v);
        }
        out
    };
    assert_eq!(first, vec![5, 5, 6]);
    assert_eq!(r.to_vec(), first);
}

#[test]
fn empty_sequence() {
    let r: RLE<usize> = RLE::from(Vec::new());
    assert_eq!(r.compressed_len(), 0);
    assert_eq!(r.to_vec(), Vec::<usize>::new());
    assert_eq!(r.get(0), Err(RLEError::OutOfRange));
}

#[test]
fn filled_is_one_run() {
    let r = RLE::filled(32768, 9usize);
    assert_eq!(r.compressed_len(), 1);
    assert_eq!(r.get(32767), Ok(9));
    assert_eq!(r.get(32768), Err(RLEError::OutOfRange));
}

#[test]
fn set_is_idempotent() {
    let mut r = RLE::from(vec![0usize; 50]);
    assert_eq!(r.set(17, &4), Ok(()));
    let once = r.to_vec();
    let runs_once = r.compressed_len();
    assert_eq!(runs_once, 3);
    assert_eq!(r.set(17, &4), Ok(()));
    assert_eq!(r.to_vec(), once);
    assert_eq!(r.compressed_len(), runs_once);
}

#[test]
fn set_splits_and_merges() {
    let mut r = RLE::from(vec![1usize, 1, 1, 1, 1]);
    assert_eq!(r.set(0, &2), Ok(()));
    assert_eq!(r.compressed_len(), 2);
    assert_eq!(r.set(4, &2), Ok(()));
    assert_eq!(r.compressed_len(), 3);
    assert_eq!(r.set(2, &2), Ok(()));
    assert_eq!(r.compressed_len(), 5);
    assert_eq!(r.set(1, &2), Ok(()));
    assert_eq!(r.set(3, &2), Ok(()));
    assert_eq!(r.compressed_len(), 1);
    assert_eq!(r.to_vec(), vec![2, 2, 2, 2, 2]);
}

#[test]
fn set_at_last_index() {
    let mut r = RLE::from(vec![1usize, 1, 2, 2]);
    assert_eq!(r.set(3, &1), Ok(()));
    assert_eq!(r.to_vec(), vec![1, 1, 2, 1]);
    assert_eq!(r.get(3), Ok(1));
}

#[test]
fn compression_invariant_after_edits() {
    let n = 64usize;
    let mut model: Vec<usize> = (0..n).map(|i| i % 3).collect();
    let mut r = RLE::from(model.clone());
    let mut seed: u64 = 12345;
    for step in 0..400 {
        seed = seed.wrapping_mul(6364136223846793005).wrapping_add(1442695040888963407);
        let a = (seed >> 33) as usize % n;
        let v = (seed >> 20) as usize % 3;
        if step % 3 == 0 {
            let b = a + ((seed >> 40) as usize % (n - a)) + 1;
            let b = b.min(n);
            assert_eq!(r.set_range_singular(v, a..b), Ok(()));
            for x in model.iter_mut().take(b).skip(a) {
                *x = v;
            }
        } else {
            assert_eq!(r.set(a, &v), Ok(()));
            model[a] = v;
        }
        assert_eq!(r.to_vec(), model);
        assert_eq!(r.compressed_len(), runs_of(&model));
        assert_eq!(r.raw_length, n);
    }
}

#[test]
fn range_overwrite_every_range() {
    let base: Vec<usize> = vec![0, 0, 1, 1, 1, 2, 0, 0];
    let n = base.len();
    for start in 0..n {
        for end in (start + 1)..=n {
            let mut r = RLE::from(base.clone());
            assert_eq!(r.set_range_singular(1, start..end), Ok(()));
            for i in 0..n {
                let want = if start <= i && i < end { 1 } else { base[i] };
                assert_eq!(r.get(i), Ok(want));
            }
            assert!(r.compressed_len() <= runs_of(&base) + 2);
        }
    }
}

#[test]
fn range_empty_changes_nothing() {
    let mut r = RLE::from(vec![0usize, 1, 2]);
    assert_eq!(r.set_range_singular(9, 2..1), Ok(()));
    assert_eq!(r.to_vec(), vec![0, 1, 2]);
}

#[test]
fn bounds_are_checked() {
    let mut r = RLE::from(vec![4usize; 10]);
    assert_eq!(r.get(10), Err(RLEError::OutOfRange));
    assert_eq!(r.get(11), Err(RLEError::OutOfRange));
    assert_eq!(r.set(10, &1), Err(RLEError::OutOfRange));
    assert_eq!(r.set_range_singular(1, 10..10), Err(RLEError::OutOfRange));
    assert_eq!(r.set_range_singular(1, 3..11), Err(RLEError::OutOfRange));
    assert_eq!(r.get_range(10..10), Err(RLEError::OutOfRange));
    assert_eq!(r.get_range(0..11), Err(RLEError::OutOfRange));
    assert_eq!(r.to_vec(), vec![4; 10]);
}

#[test]
fn get_range_uncompresses() {
    let r = RLE::from(vec![1usize, 1, 2, 3, 3, 3]);
    assert_eq!(r.get_range(1..5), Ok(vec![1, 2, 3, 3]));
    assert_eq!(r.get_range(0..6), Ok(vec![1, 1, 2, 3, 3, 3]));
    assert_eq!(r.get_range(4..2), Ok(vec![]));
}
