use entropy::Entropy;

#[test]
fn test_new() {
    // Five bytes: 0x00 twice, 0x01 twice, 0x02 once
    let test_entropy = Entropy::new(&[0x00, 0x00, 0x01, 0x01, 0x02]);

    // Test that the frequency table was populated correctly
    assert_eq!(test_entropy.byte_count[0], 2);
    assert_eq!(test_entropy.byte_count[1], 2);
    assert_eq!(test_entropy.byte_count[2], 1);

    // Test the length
    assert_eq!(test_entropy.length, 5);
}

#[test]
fn frequency_table_scenario() {
    let table = Entropy::new(&[0x00, 0x00, 0x01, 0x01, 0x02]);
    assert_eq!(table.byte_count[0x00], 2);
    assert_eq!(table.byte_count[0x01], 2);
    assert_eq!(table.byte_count[0x02], 1);
    for v in 3..256usize {
        assert_eq!(table.byte_count[v], 0);
    }
    assert_eq!(table.length, 5);
}

#[test]
fn empty_input_yields_zero_table() {
    let table = Entropy::new(&[]);
    assert_eq!(table.length, 0);
    for v in 0..256usize {
        assert_eq!(table.byte_count[v], 0);
    }
}

#[test]
fn single_symbol_input() {
    let table = Entropy::new(&[0xAB; 7]);
    assert_eq!(table.length, 7);
    assert_eq!(table.byte_count[0xAB], 7);
    for v in 0..256usize {
        if v != 0xAB {
            assert_eq!(table.byte_count[v], 0);
        }
    }
}

#[test]
fn permutation_gives_same_table() {
    let first = Entropy::new(&[1, 2, 3, 2, 1, 255, 0]);
    let second = Entropy::new(&[255, 1, 1, 2, 2, 3, 0]);
    assert_eq!(first.length, second.length);
    for v in 0..256usize {
        assert_eq!(first.byte_count[v], second.byte_count[v]);
    }
}

#[test]
fn every_byte_value_counted_once() {
    let mut bytes: Vec<u8> = Vec::new();
    for v in 0..256usize {
        bytes.push(v as u8);
    }
    let table = Entropy::new(&bytes);
    assert_eq!(table.length, 256);
    for v in 0..256usize {
        assert_eq!(table.byte_count[v], 1);
    }
}

#[test]
fn sum_of_counts_equals_length() {
    let data: [u8; 10] = [5, 9, 9, 9, 200, 255, 255, 0, 3, 7];
    let table = Entropy::new(&data);
    let sum: u64 = table.byte_count.iter().sum();
    assert_eq!(sum, table.length);
    assert_eq!(table.length, 10);
}
