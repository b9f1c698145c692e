use evm_address_extractor::output::{
    next_part_number, part_file, write_addresses_file, AddressSet,
};
use evm_address_extractor::part::{BatchFailure, PartWork, Progress};
use evm_address_extractor::plan::Part;
use std::io::{Read, Write};

fn strings(list: &[&str]) -> Vec<String> {
    list.iter().map(|s| s.to_string()).collect()
}

fn gunzip(bytes: &[u8]) -> String {
    let mut text = String::new();
    flate2::read::GzDecoder::new(bytes).read_to_string(&mut text).unwrap();
    text
}

fn content(fields: &[String]) -> Vec<u8> {
    let mut set = AddressSet::new();
    set.extend(fields.to_vec());
    write_addresses_file("bnb", 1, &set).content
}

fn text(fields: &[&str]) -> String {
    gunzip(&content(&strings(fields)))
}

/// The same records through one writer over one encoder.
fn expected(fields: &[String]) -> Vec<u8> {
    let encoder = flate2::write::GzEncoder::new(Vec::new(), flate2::Compression::default());
    let mut writer = csv::Writer::from_writer(encoder);
    writer.write_record(["address"]).unwrap();
    for field in fields {
        writer.write_record([field]).unwrap();
    }
    writer.flush().unwrap();
    writer.into_inner().unwrap().finish().unwrap()
}

fn some_addresses(n: u64) -> Vec<String> {
    (0..n)
        .map(|i| {
            let mixed = (i + 1).wrapping_mul(0x9e37_79b9_7f4a_7c15);
            format!("0x{:016x}{:016x}{:08x}", mixed, mixed.rotate_left(29) ^ i, i)
        })
        .collect()
}

#[test]
fn parts_are_numbered_with_three_digits() {
    assert_eq!(part_file("bnb", 7), "output/bnb_addresses_1M_part_007.csv.gz");
    assert_eq!(part_file("base", 1234), "output/base_addresses_1M_part_1234.csv.gz");
    assert_ne!(part_file("base", 1), part_file("base", 10));
}

#[test]
fn the_next_part_is_the_first_without_a_file() {
    assert_eq!(next_part_number("bnb", |_: &str| false), Some(1));
    let taken = [part_file("bnb", 1), part_file("bnb", 2), part_file("bnb", 4)];
    let exists = |path: &str| taken.iter().any(|t| t == path);
    assert_eq!(next_part_number("bnb", exists), Some(3));
    assert_eq!(next_part_number("base", exists), Some(1));
}

#[test]
fn an_address_is_kept_once() {
    let mut set = AddressSet::new();
    assert!(set.is_empty());
    set.insert("b".to_string());
    set.extend(strings(&["a", "b", "c", "a"]));
    assert_eq!(set.addresses(), &strings(&["b", "a", "c"]));
    assert_eq!(set.len(), 3);
    assert!(!set.is_empty());
}

#[test]
fn the_order_of_arrival_does_not_matter() {
    let mut one = AddressSet::new();
    one.extend(strings(&["a", "b"]));
    one.extend(strings(&["c", "a"]));
    let mut two = AddressSet::new();
    two.extend(strings(&["c", "a"]));
    two.extend(strings(&["a", "b"]));
    let mut first = one.addresses().iter().collect::<Vec<_>>();
    let mut second = two.addresses().iter().collect::<Vec<_>>();
    first.sort();
    second.sort();
    assert_eq!(first, second);
}

#[test]
fn addresses_are_written_as_csv() {
    assert_eq!(text(&[]), "address\n");
    assert_eq!(text(&["0xab", "0xcd"]), "address\n0xab\n0xcd\n");
    assert_eq!(
        text(&["", "a,b", "say \"x\"", "l\nm", "r\rs", "\u{e9} z", "'q'"]),
        "address\n\"\"\n\"a,b\"\n\"say \"\"x\"\"\"\n\"l\nm\"\n\"r\rs\"\n\u{e9} z\n'q'\n"
    );
}

#[test]
fn a_file_holds_the_stream_of_one_writer() {
    for n in [0, 1, 2, 100, 185, 186, 187, 700, 5000, 20000] {
        let fields = some_addresses(n);
        assert_eq!(content(&fields), expected(&fields));
    }
    let odd = strings(&["0xab", "", "x,\"y\"", "\u{1f600}\n", " ", "#"]);
    assert_eq!(content(&odd), expected(&odd));
}

#[test]
fn a_stream_has_its_flush_points() {
    let fields = some_addresses(3);
    let plain = gunzip(&content(&fields));
    let mut encoder = flate2::write::GzEncoder::new(Vec::new(), flate2::Compression::default());
    encoder.write_all(plain.as_bytes()).unwrap();
    let without = encoder.finish().unwrap();
    assert_eq!(gunzip(&without), plain);
    assert_ne!(without, content(&fields));
}

#[test]
fn records_go_over_the_end_of_a_buffer() {
    for pad in 8170..8200 {
        let long = "a".repeat(pad);
        let fields = strings(&[&long, "", "b\"c", "d"]);
        let rows = gunzip(&content(&fields));
        assert_eq!(rows, format!("address\n{}\n\"\"\n\"b\"\"c\"\nd\n", long));
    }
}

#[test]
fn the_file_of_a_part_is_compressed_csv() {
    let mut set = AddressSet::new();
    set.extend(strings(&["0x1", "0x2", "0x1"]));
    let file = write_addresses_file("bnb", 2, &set);
    assert_eq!(file.name, "output/bnb_addresses_1M_part_002.csv.gz");
    assert_eq!(&file.content[..3], &[0x1f, 0x8b, 8]);
    assert_eq!(gunzip(&file.content), "address\n0x1\n0x2\n");
}

#[test]
fn a_part_takes_in_its_batches() {
    let part = Part { number: 9, first: 100, last: 149 };
    let (mut work, batches) = PartWork::begin(part);
    assert_eq!(batches.len(), 2);
    assert_eq!(work.unique(), 0);
    assert_eq!(work.file("base"), None);
    assert_eq!(work.take(Ok(strings(&["0xa", "0xb"]))), Ok(None));
    assert_eq!(
        work.take(Ok(strings(&["0xb", "0xc"]))),
        Ok(Some(Progress { processed: 2, total: 2, unique: 3 }))
    );
    let file = work.file("base").unwrap();
    assert_eq!(file.name, "output/base_addresses_1M_part_009.csv.gz");
    assert_eq!(gunzip(&file.content), "address\n0xa\n0xb\n0xc\n");
}

#[test]
fn a_failed_batch_ends_the_work() {
    let (mut work, _) = PartWork::begin(Part { number: 1, first: 0, last: 0 });
    assert_eq!(
        work.take(Err(BatchFailure::Rpc("e".to_string()))),
        Err("RPC batch permanently failed: e".to_string())
    );
    assert_eq!(
        work.take(Err(BatchFailure::Worker("e".to_string()))),
        Err("Worker task failed: e".to_string())
    );
    assert_eq!(
        work.take(Ok(strings(&["0xa"]))),
        Ok(Some(Progress { processed: 1, total: 1, unique: 1 }))
    );
}

#[test]
fn different_addresses_have_different_lines() {
    let odd = ["", "\"", "\"\"", ",", "\n", "a", "\"a\"", "a\"", "a,", "a\n"];
    for a in odd {
        for b in odd {
            let same = text(&[a]) == text(&[b]);
            assert_eq!(same, a == b);
        }
    }
}

#[test]
fn a_file_lists_each_address_once() {
    let mut set = AddressSet::new();
    set.extend(strings(&["0xb", "0xa", "0xb"]));
    set.insert("0xa".to_string());
    assert_eq!(set.addresses(), &strings(&["0xb", "0xa"]));
    let file = write_addresses_file("bnb", 1, &set);
    assert_eq!(gunzip(&file.content), "address\n0xb\n0xa\n");
}
