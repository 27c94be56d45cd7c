use gossip_consensus::{Entry, MASS_RANGE, ODDSKETCH_LEN, ODDSKETCH_LEN_BITS};

fn blank() -> Entry {
    Entry::new()
}

fn bit(entry: &Entry, index: usize) -> bool {
    entry.oddsketch[index / 8] & (1u8 << (index % 8)) != 0
}

#[test]
fn oddsketch_has_the_network_wide_length() {
    let entry = blank();
    assert_eq!(ODDSKETCH_LEN_BITS, 1024);
    assert_eq!(ODDSKETCH_LEN, 128);
    assert_eq!(entry.oddsketch.len() * 8, ODDSKETCH_LEN_BITS);
    let mut toggled = entry;
    toggled.toggle(1023);
    assert_eq!(toggled.oddsketch.len() * 8, ODDSKETCH_LEN_BITS);
}

#[test]
fn mass_range_is_two_million() {
    assert_eq!(MASS_RANGE, 2_000_000);
}

#[test]
fn blank_entry_is_all_zero() {
    let entry = blank();
    assert_eq!(entry.mass, 0);
    assert!(entry.oddsketch.iter().all(|byte| *byte == 0));
}

#[test]
fn toggle_sets_the_bit_of_its_byte() {
    let mut entry = blank();
    entry.toggle(0);
    assert_eq!(entry.oddsketch[0], 0b0000_0001);
    entry.toggle(7);
    assert_eq!(entry.oddsketch[0], 0b1000_0001);
    entry.toggle(8);
    assert_eq!(entry.oddsketch[1], 0b0000_0001);
    entry.toggle(1023);
    assert_eq!(entry.oddsketch[127], 0b1000_0000);
    assert_eq!(entry.mass, 0);
}

#[test]
fn toggle_changes_one_bit_only() {
    let mut entry = blank();
    entry.toggle(300);
    for index in 0..ODDSKETCH_LEN_BITS {
        assert_eq!(bit(&entry, index), index == 300);
    }
}

#[test]
fn toggle_twice_restores_the_entry() {
    let mut entry = blank();
    entry.toggle(5);
    entry.toggle(77);
    let before = entry;
    entry.toggle(513);
    assert_ne!(entry, before);
    entry.toggle(513);
    assert_eq!(entry, before);
}

#[test]
fn distance_counts_differing_bits() {
    let mut a = blank();
    let mut b = blank();
    assert_eq!(a.distance(&b), 0);
    a.toggle(3);
    assert_eq!(a.distance(&b), 1);
    b.toggle(3);
    assert_eq!(a.distance(&b), 0);
    a.toggle(10);
    a.toggle(11);
    b.toggle(1000);
    assert_eq!(a.distance(&b), 3);
}

#[test]
fn distance_is_symmetric() {
    let mut a = blank();
    let mut b = blank();
    for index in [1usize, 9, 64, 65, 900] {
        a.toggle(index);
    }
    for index in [9usize, 700, 1023] {
        b.toggle(index);
    }
    assert_eq!(a.distance(&b), b.distance(&a));
    assert_eq!(a.distance(&b), 6);
}

#[test]
fn distance_to_a_copy_is_zero() {
    let mut a = blank();
    a.toggle(42);
    a.mass = 17;
    let copy = a.clone();
    assert_eq!(a.distance(&copy), 0);
    assert_eq!(a.distance(&a), 0);
}

#[test]
fn distance_ignores_mass() {
    let mut a = blank();
    let mut b = blank();
    a.mass = 1;
    b.mass = 1_999_999;
    assert_eq!(a.distance(&b), 0);
}

#[test]
fn distance_is_at_most_the_number_of_bits() {
    let a = blank();
    let b = Entry { oddsketch: [0xff; ODDSKETCH_LEN], mass: 0 };
    assert_eq!(a.distance(&b), 1024);
    assert_eq!(b.distance(&b), 0);
}
