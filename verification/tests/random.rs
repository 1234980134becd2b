use kernel_net::random::{custom_getrandom, next_u64, DEFAULT_SEED};

#[test]
fn first_numbers_from_the_default_seed() {
    let mut seed = DEFAULT_SEED;
    assert_eq!(seed, 0xCAFEBABE);
    assert_eq!(next_u64(&mut seed), 0x32db5e49f304284b);
    assert_eq!(seed, 0x32db5e49f304284b);
    assert_eq!(next_u64(&mut seed), 0xd0720d2b815752db);
    assert_eq!(next_u64(&mut seed), 0x3702004f3ca62abe);
}

#[test]
fn zero_seed_counts_as_the_default() {
    let mut seed = 0;
    assert_eq!(next_u64(&mut seed), 0x32db5e49f304284b);
    let mut seed = 1;
    assert_eq!(next_u64(&mut seed), 0x40822041);
}

#[test]
fn fill_takes_one_number_per_eight_bytes() {
    let mut seed = DEFAULT_SEED;
    let mut buf = [0u8; 20];
    assert!(custom_getrandom(&mut seed, &mut buf).is_ok());
    let expected: [u8; 20] = [
        0x4b, 0x28, 0x04, 0xf3, 0x49, 0x5e, 0xdb, 0x32, 0xdb, 0x52, 0x57, 0x81, 0x2b, 0x0d, 0x72,
        0xd0, 0xbe, 0x2a, 0xa6, 0x3c,
    ];
    assert_eq!(buf, expected);
    assert_eq!(seed, 0x3702004f3ca62abe);
}

#[test]
fn fill_of_nothing_leaves_the_generator() {
    let mut seed = 42;
    let mut buf: [u8; 0] = [];
    assert!(custom_getrandom(&mut seed, &mut buf).is_ok());
    assert_eq!(seed, 42);
}

#[test]
fn fill_of_a_whole_number() {
    let mut seed = DEFAULT_SEED;
    let mut buf = [0u8; 8];
    assert!(custom_getrandom(&mut seed, &mut buf).is_ok());
    assert_eq!(buf, 0x32db5e49f304284bu64.to_le_bytes());
    assert_eq!(seed, 0x32db5e49f304284b);
    let mut one = [0u8; 1];
    assert!(custom_getrandom(&mut seed, &mut one).is_ok());
    assert_eq!(one, [0xdb]);
    assert_eq!(seed, 0xd0720d2b815752db);
}
