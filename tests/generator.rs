use memory_cache::id_generator::Generator;

#[test]
fn test_combine() {
    assert_eq!(Generator::combine(1, 5), 4294967301);
}

#[test]
fn test_same_second() {
    let mut gen = Generator::new();
    let id_1 = gen.gen();
    let id_2 = gen.gen();
    let id_3 = gen.gen();
    let id_4 = gen.gen();
    let id_5 = gen.gen();
    assert_eq!(id_1 + 1, id_2);
    assert_eq!(id_2 + 1, id_3);
    assert_eq!(id_3 + 1, id_4);
    assert_eq!(id_4 + 1, id_5);
}

#[test]
fn combine_puts_timestamp_in_high_half() {
    assert_eq!(Generator::combine(0, 0), 0);
    assert_eq!(Generator::combine(1, 0), 4294967296);
    assert_eq!(Generator::combine(u32::MAX, u32::MAX), u64::MAX);
    assert_eq!(Generator::combine(0, 7), 7);
}

#[test]
fn gen_at_counts_up_within_a_second() {
    let mut gen = Generator::new();
    // A new second first: sequence 0, then one more per call.
    let a = gen.gen_at(10);
    let b = gen.gen_at(10);
    let c = gen.gen_at(10);
    assert_eq!(a, Generator::combine(10, 0));
    assert_eq!(b, Generator::combine(10, 1));
    assert_eq!(c, Generator::combine(10, 2));
    assert_eq!(a + 1, b);
    assert_eq!(b + 1, c);
}

#[test]
fn gen_at_resets_on_a_new_second() {
    let mut gen = Generator::new();
    let first = gen.gen_at(100);
    let again = gen.gen_at(100);
    let later = gen.gen_at(101);
    let next = gen.gen_at(101);
    assert_eq!(first + 1, again);
    assert!(again < later);
    assert_eq!(later % 4294967296, 0);
    assert_eq!(later, 101 * 4294967296);
    assert_eq!(next, later + 1);
}

#[test]
fn timestamp_truncates_to_32_bits() {
    assert_eq!(Generator::timestamp(Some(5)), 5);
    assert_eq!(Generator::timestamp(Some(4294967296 + 7)), 7);
    assert_eq!(Generator::timestamp(Some(u64::MAX)), u32::MAX);
    assert_eq!(Generator::timestamp(None), 0);
}
