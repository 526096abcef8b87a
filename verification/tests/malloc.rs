use bl602wifi::compat::malloc::{aligned_size, free, malloc, Allocation, Allocator, MAX_ALLOCATIONS};

fn live_blocks(a: &Allocator) -> Vec<(usize, usize)> {
    let mut blocks = Vec::new();
    for i in 0..a.len() {
        let r = a.get(i);
        if !r.free {
            blocks.push((r.address, r.size));
        }
    }
    blocks
}

fn assert_no_overlap(a: &Allocator, base: usize, limit: usize) {
    let blocks = live_blocks(a);
    for (i, &(addr, size)) in blocks.iter().enumerate() {
        assert!(base <= addr);
        assert!(addr + size <= limit);
        for &(other, other_size) in blocks.iter().skip(i + 1) {
            assert!(addr + size <= other || other + other_size <= addr || size == 0 || other_size == 0);
        }
    }
}

#[test]
fn freed_first_block_is_used_again_in_arena_of_64_bytes() {
    let mut a = Allocator::new(0x1000, 64);
    let first = malloc(&mut a, 8);
    let second = malloc(&mut a, 8);
    assert_eq!(second - first, 8);
    free(&mut a, first);
    let third = malloc(&mut a, 8);
    assert_eq!(third, first);
}

#[test]
fn first_allocation_is_at_the_arena_base() {
    let mut a = Allocator::new(0x4000, 1024);
    assert_eq!(a.top(), 0x4000);
    assert_eq!(malloc(&mut a, 1), 0x4000);
    assert_eq!(a.top(), 0x4008);
    assert_eq!(a.get(0), Allocation { address: 0x4000, size: 8, free: false });
}

#[test]
fn sizes_are_rounded_up_to_multiples_of_eight() {
    assert_eq!(aligned_size(0), 0);
    assert_eq!(aligned_size(1), 8);
    assert_eq!(aligned_size(7), 8);
    assert_eq!(aligned_size(8), 8);
    assert_eq!(aligned_size(9), 16);
    assert_eq!(aligned_size(13), 16);
    assert_eq!(aligned_size(u32::MAX), 4_294_967_296);
    let mut a = Allocator::new(0x100, 256);
    let p = malloc(&mut a, 13);
    let q = malloc(&mut a, 1);
    assert_eq!(q - p, 16);
    assert_eq!(a.get(0).size, 16);
    assert_eq!(a.get(1).size, 8);
}

#[test]
fn every_block_starts_a_multiple_of_eight_above_the_base() {
    let base = 0x1003;
    let mut a = Allocator::new(base, 4096);
    for size in [1u32, 9, 0, 17, 8, 33, 2] {
        let p = malloc(&mut a, size);
        assert_eq!((p - base) % 8, 0);
    }
}

#[test]
fn freeing_the_top_record_shrinks_the_water_mark() {
    let mut a = Allocator::new(0x1000, 256);
    let p = malloc(&mut a, 16);
    let q = malloc(&mut a, 24);
    assert_eq!(a.len(), 2);
    free(&mut a, q);
    assert_eq!(a.len(), 1);
    assert_eq!(a.top(), p + 16);
    // The same size comes back at the released address.
    assert_eq!(malloc(&mut a, 24), q);
    free(&mut a, q);
    // So does a smaller one.
    assert_eq!(malloc(&mut a, 4), q);
    assert_eq!(a.get(1), Allocation { address: q, size: 8, free: false });
}

#[test]
fn first_fit_takes_a_lower_free_record_before_the_reclaimed_top() {
    let mut a = Allocator::new(0x1000, 256);
    let p = malloc(&mut a, 8);
    let _q = malloc(&mut a, 8);
    let r = malloc(&mut a, 8);
    free(&mut a, p);
    free(&mut a, r);
    assert_eq!(malloc(&mut a, 8), p);
    assert_eq!(malloc(&mut a, 8), r);
}

#[test]
fn freeing_a_middle_record_marks_it_free_for_first_fit() {
    let mut a = Allocator::new(0x2000, 512);
    let p = malloc(&mut a, 32);
    let q = malloc(&mut a, 16);
    let r = malloc(&mut a, 8);
    free(&mut a, q);
    assert_eq!(a.len(), 3);
    assert!(a.get(1).free);
    assert_eq!(a.find_live(q), None);
    // Too large for the freed record: goes on top.
    let s = malloc(&mut a, 24);
    assert_eq!(s, r + 8);
    // Small enough: the freed record is used again, at its full size.
    let t = malloc(&mut a, 8);
    assert_eq!(t, q);
    assert_eq!(a.get(1), Allocation { address: q, size: 16, free: false });
    assert_eq!(a.find_live(p), Some(0));
    assert_eq!(a.find_live(t), Some(1));
}

#[test]
fn first_fit_is_not_best_fit() {
    let mut a = Allocator::new(0x2000, 512);
    let big = malloc(&mut a, 64);
    let _keep1 = malloc(&mut a, 8);
    let small = malloc(&mut a, 8);
    let _keep2 = malloc(&mut a, 8);
    free(&mut a, big);
    free(&mut a, small);
    assert_eq!(a.find_fit(8), Some(0));
    assert_eq!(malloc(&mut a, 8), big);
    assert_eq!(malloc(&mut a, 8), small);
}

#[test]
fn freeing_the_null_address_changes_nothing() {
    let mut a = Allocator::new(0x1000, 64);
    let p = malloc(&mut a, 8);
    free(&mut a, 0);
    assert_eq!(a.len(), 1);
    assert_eq!(a.get(0), Allocation { address: p, size: 8, free: false });
}

#[test]
fn can_malloc_tells_when_the_arena_is_used_up() {
    let mut a = Allocator::new(0x1000, 16);
    assert!(a.can_malloc(16));
    assert!(!a.can_malloc(17));
    let p = malloc(&mut a, 8);
    assert!(a.can_malloc(8));
    assert!(!a.can_malloc(9));
    let q = malloc(&mut a, 8);
    assert!(!a.can_malloc(1));
    assert!(a.can_malloc(0));
    free(&mut a, p);
    assert!(a.can_malloc(8));
    assert!(!a.can_malloc(16));
    assert_eq!(malloc(&mut a, 5), p);
    assert_eq!(a.find_live(q), Some(1));
}

#[test]
fn can_malloc_tells_when_the_table_is_full() {
    let mut a = Allocator::new(0x1000, 1 << 20);
    for _ in 0..MAX_ALLOCATIONS {
        assert!(a.can_malloc(8));
        malloc(&mut a, 8);
    }
    assert_eq!(a.len(), MAX_ALLOCATIONS);
    assert!(!a.can_malloc(8));
    let third = a.get(2).address;
    free(&mut a, third);
    assert!(a.can_malloc(8));
    assert!(!a.can_malloc(16));
    assert_eq!(malloc(&mut a, 8), third);
}

#[test]
fn find_live_knows_only_addresses_in_use() {
    let mut a = Allocator::new(0x1000, 64);
    let p = malloc(&mut a, 8);
    let q = malloc(&mut a, 8);
    assert_eq!(a.find_live(p), Some(0));
    assert_eq!(a.find_live(q), Some(1));
    assert_eq!(a.find_live(p + 4), None);
    assert_eq!(a.find_live(0x9999), None);
    free(&mut a, p);
    assert_eq!(a.find_live(p), None);
}

#[test]
fn blocks_of_size_zero_share_an_address_and_are_freed_one_by_one() {
    let mut a = Allocator::new(0x1000, 64);
    let p = malloc(&mut a, 0);
    let q = malloc(&mut a, 8);
    assert_eq!(p, q);
    free(&mut a, p);
    assert!(a.get(0).free);
    assert!(!a.get(1).free);
    free(&mut a, q);
    assert_eq!(a.len(), 1);
    assert_eq!(a.find_live(q), None);
}

#[test]
fn blocks_in_use_never_overlap() {
    let base = 0x8000;
    let size = 4096;
    let mut a = Allocator::new(base, size);
    let mut held: Vec<usize> = Vec::new();
    let sizes = [1u32, 8, 24, 3, 64, 16, 40, 8, 100, 7, 32, 12];
    let mut seed = 12345u32;
    for step in 0..400 {
        seed = seed.wrapping_mul(1_103_515_245).wrapping_add(12_345);
        let pick = (seed >> 16) as usize;
        if step % 3 != 2 || held.is_empty() {
            let want = sizes[pick % sizes.len()];
            if a.can_malloc(want) {
                let p = malloc(&mut a, want);
                assert!(!held.contains(&p) || want == 0);
                held.push(p);
            }
        } else {
            let p = held.remove(pick % held.len());
            assert!(a.find_live(p).is_some());
            free(&mut a, p);
        }
        assert_no_overlap(&a, base, base + size);
        assert_eq!(live_blocks(&a).len(), held.len());
    }
}
