//! The part files: their names, and what is written to them.
use vstd::hash_set::StringHashSet;
use vstd::prelude::*;

use crate::number::three_digit_text;

verus! {

/// The name of the file of a part.
pub open spec fn part_file_name(chain: Seq<char>, part: u32) -> Seq<char> {
    "output/"@ + chain + "_addresses_1M_part_"@ + crate::number::three_digits(part as nat)
        + ".csv.gz"@
}

/// The name of the file of a part.
pub fn part_file(chain: &str, part: u32) -> (name: String)
    ensures
        name@ == part_file_name(chain@, part),
{
    let mut name = "output/".to_owned();
    name.append(chain);
    name.append("_addresses_1M_part_");
    name.append(three_digit_text(part).as_str());
    name.append(".csv.gz");
    name
}

/// Two parts of a chain never share a file.
pub proof fn parts_have_their_own_files(chain: Seq<char>, a: u32, b: u32)
    requires
        part_file_name(chain, a) == part_file_name(chain, b),
    ensures
        a == b,
{
    let front = "output/"@ + chain + "_addresses_1M_part_"@;
    let tail = ".csv.gz"@;
    let x = crate::number::three_digits(a as nat);
    let y = crate::number::three_digits(b as nat);
    let whole = front + x + tail;
    assert(whole == front + y + tail);
    assert(whole.len() == front.len() + x.len() + tail.len());
    assert(x =~= whole.subrange(front.len() as int, (front.len() + x.len()) as int));
    assert(y =~= (front + y + tail).subrange(front.len() as int, (front.len() + y.len()) as int));
    crate::number::three_digits_tell_numbers_apart(a as nat, b as nat);
}

/// Whether `is_taken`, asked for a path, may answer so.
pub open spec fn may_answer<F: Fn(&str) -> bool>(is_taken: F, path: Seq<char>, answer: bool) -> bool {
    exists|asked: &str| asked@ == path && #[trigger] call_ensures(is_taken, (asked,), answer)
}

/// The first part whose file does not exist, counted from one. `is_taken` tells of a path
/// whether there is a file; there is no such part where it says so of every one.
pub fn next_part_number<F: Fn(&str) -> bool>(chain: &str, is_taken: F) -> (part: Option<u32>)
    requires
        forall|path: &str| #[trigger] call_requires(is_taken, (path,)),
    ensures
        match part {
            Some(n) => {
                &&& n >= 1
                &&& may_answer(is_taken, part_file_name(chain@, n), false)
                &&& forall|k: u32|
                    1 <= k < n ==> may_answer(is_taken, #[trigger] part_file_name(chain@, k), true)
            },
            None => forall|k: u32|
                1 <= k ==> may_answer(is_taken, #[trigger] part_file_name(chain@, k), true),
        },
{
    let mut part: u32 = 1;
    loop
        invariant
            part >= 1,
            forall|path: &str| #[trigger] call_requires(is_taken, (path,)),
            forall|k: u32|
                1 <= k < part ==> may_answer(is_taken, #[trigger] part_file_name(chain@, k), true),
        decreases u32::MAX - part,
    {
        let name = part_file(chain, part);
        let path = name.as_str();
        if !is_taken(path) {
            assert(may_answer(is_taken, part_file_name(chain@, part), false));
            return Some(part);
        }
        assert(may_answer(is_taken, part_file_name(chain@, part), true));
        if part == u32::MAX {
            return None;
        }
        part = part + 1;
    }
}

/// Different addresses in the order in which they came first.
pub struct AddressSet {
    seen: StringHashSet,
    order: Vec<String>,
}

impl View for AddressSet {
    type V = Seq<Seq<char>>;

    closed spec fn view(&self) -> Seq<Seq<char>> {
        crate::text::texts(self.order@)
    }
}

impl AddressSet {
    /// Whether what is known of the addresses agrees with the list of them.
    pub closed spec fn well_formed(self) -> bool {
        &&& self@.no_duplicates()
        &&& self.seen@ == self@.to_set()
    }

    /// No addresses.
    pub fn new() -> (set: AddressSet)
        ensures
            set.well_formed(),
            set@ == Seq::<Seq<char>>::empty(),
    {
        let set = AddressSet { seen: StringHashSet::new(), order: Vec::new() };
        assert(set@ =~= Seq::<Seq<char>>::empty());
        assert(set.seen@ =~= set@.to_set());
        set
    }

    /// Takes in an address.
    pub fn insert(&mut self, address: String)
        requires
            old(self).well_formed(),
        ensures
            final(self).well_formed(),
            final(self)@ == crate::text::with_text(old(self)@, address@),
    {
        let ghost before = self@;
        if self.seen.insert(address.clone()) {
            self.order.push(address);
            assert(self@ =~= before.push(address@));
            assert(self.seen@ =~= self@.to_set()) by {
                assert forall|a: Seq<char>| #[trigger] self@.to_set().contains(a)
                    == before.to_set().insert(address@).contains(a) by {
                    if before.contains(a) {
                        let i = choose|i: int| 0 <= i < before.len() && before[i] == a;
                        assert(self@[i] == a);
                    }
                    if a == address@ {
                        assert(self@[before.len() as int] == a);
                    }
                }
            }
        } else {
            assert(self.seen@ =~= before.to_set());
        }
    }

    /// Takes in several addresses.
    pub fn extend(&mut self, addresses: Vec<String>)
        requires
            old(self).well_formed(),
        ensures
            final(self).well_formed(),
            final(self)@ == crate::text::with_texts(old(self)@, crate::text::texts(addresses@)),
    {
        let ghost before = self@;
        let ghost all = crate::text::texts(addresses@);
        assert(all.take(0) =~= Seq::<Seq<char>>::empty());
        for address in it: addresses
            invariant
                crate::text::texts(it.seq()) == all,
                self.well_formed(),
                self@ == crate::text::with_texts(before, all.take(it.index())),
        {
            self.insert(address);
            proof {
                let taken = all.take(it.index() + 1);
                assert(taken.drop_last() =~= all.take(it.index()));
                assert(taken.last() == address@);
            }
        }
        assert(all.take(all.len() as int) =~= all);
    }

    /// How many addresses there are.
    pub fn len(&self) -> (n: usize)
        ensures
            n == self@.len(),
    {
        self.order.len()
    }

    /// Whether there are none.
    pub fn is_empty(&self) -> (empty: bool)
        ensures
            empty == (self@.len() == 0),
    {
        self.order.len() == 0
    }

    /// The addresses.
    pub fn addresses(&self) -> (list: &Vec<String>)
        ensures
            crate::text::texts(list@) == self@,
    {
        &self.order
    }
}

/// No address is kept twice.
pub proof fn addresses_are_kept_once(set: AddressSet)
    requires
        set.well_formed(),
    ensures
        set@.no_duplicates(),
{
}

/// Whether a CSV field with `c` in it has to stand in quotes.
pub open spec fn needs_quotes(c: char) -> bool {
    c == ',' || c == '"' || c == '\n' || c == '\r'
}

/// `s` with every quote doubled.
pub open spec fn doubled_quotes(s: Seq<char>) -> Seq<char>
    decreases s.len(),
{
    if s.len() == 0 {
        Seq::empty()
    } else if s.last() == '"' {
        doubled_quotes(s.drop_last()).push('"').push('"')
    } else {
        doubled_quotes(s.drop_last()).push(s.last())
    }
}

/// Whether a CSV record of one field has it in quotes.
pub open spec fn in_quotes(field: Seq<char>) -> bool {
    field.len() == 0 || exists|i: int| 0 <= i < field.len() && needs_quotes(#[trigger] field[i])
}

/// A CSV record of one field, with the end of its line: in quotes, those in it doubled, where
/// the field is empty or has a comma, a quote or a line break in it, and as it is otherwise.
pub open spec fn csv_record(field: Seq<char>) -> Seq<char> {
    if in_quotes(field) {
        seq!['"'] + doubled_quotes(field) + seq!['"', '\n']
    } else {
        field.push('\n')
    }
}

/// The CSV text of a list of addresses: a head line, then a line for each.
pub open spec fn csv_text(addresses: Seq<Seq<char>>) -> Seq<char>
    decreases addresses.len(),
{
    if addresses.len() == 0 {
        csv_record("address"@)
    } else {
        csv_text(addresses.drop_last()) + csv_record(addresses.last())
    }
}

/// A `csv::Writer` over a `flate2::write::GzEncoder` over a buffer.
#[verifier::external_body]
pub struct RecordWriter {
    writer: csv::Writer<flate2::write::GzEncoder<Vec<u8>>>,
}

/// The text of the records that a writer has taken in.
pub uninterp spec fn written(writer: RecordWriter) -> Seq<char>;

/// What `flate2::read::GzDecoder` reads out of a gzip stream, if it is one.
pub uninterp spec fn gunzip_of(stream: Seq<u8>) -> Option<Seq<u8>>;

/// The gzip stream that a writer makes of the text of its records.
pub uninterp spec fn gzip_of(text: Seq<char>) -> Seq<u8>;

/// `csv::Writer::from_writer`, which has the default settings, and
/// `flate2::write::GzEncoder::new` with `Compression::default()`: nothing is taken in yet.
#[verifier::external_body]
fn open_writer() -> (writer: RecordWriter)
    ensures
        written(writer) == Seq::<char>::empty(),
{
    let encoder = flate2::write::GzEncoder::new(Vec::new(), flate2::Compression::default());
    RecordWriter { writer: csv::Writer::from_writer(encoder) }
}

/// `csv::Writer::write_record` with one field: the record comes behind the others, in the
/// form that [`csv_record`] gives it.
#[verifier::external_body]
fn write_record(writer: &mut RecordWriter, field: &str)
    ensures
        written(*final(writer)) == written(*old(writer)) + csv_record(field@),
{
    writer.writer.write_record([field]).unwrap();
}

/// `csv::Writer::flush`, `csv::Writer::into_inner`, which flushes once more, and
/// `flate2::write::GzEncoder::finish`: the whole stream. It depends on the records alone, and
/// so on their text, from which they can be read off; decompressing it gives that text back.
#[verifier::external_body]
fn close_writer(mut writer: RecordWriter) -> (stream: Vec<u8>)
    ensures
        stream@ == gzip_of(written(writer)),
        gunzip_of(stream@) == Some(vstd::utf8::encode_utf8(written(writer))),
{
    writer.writer.flush().unwrap();
    writer.writer.into_inner().ok().unwrap().finish().unwrap()
}

/// A file of a part: its name and what it holds.
#[derive(Debug, PartialEq)]
pub struct PartFile {
    pub name: String,
    pub content: Vec<u8>,
}

/// The file of a part with its addresses, each of them once.
pub fn write_addresses_file(chain: &str, part: u32, addresses: &AddressSet) -> (file: PartFile)
    requires
        addresses.well_formed(),
    ensures
        addresses@.no_duplicates(),
        file.name@ == part_file_name(chain@, part),
        file.content@ == gzip_of(csv_text(addresses@)),
        gunzip_of(file.content@) == Some(vstd::utf8::encode_utf8(csv_text(addresses@))),
{
    let list = addresses.addresses();
    let ghost all = addresses@;
    let mut writer = open_writer();
    write_record(&mut writer, "address");
    assert(written(writer) =~= csv_text(all.take(0)));
    let mut i: usize = 0;
    while i < list.len()
        invariant
            i <= list.len(),
            all == crate::text::texts(list@),
            written(writer) == csv_text(all.take(i as int)),
        decreases list.len() - i,
    {
        write_record(&mut writer, list[i].as_str());
        proof {
            let taken = all.take(i + 1);
            assert(taken.drop_last() =~= all.take(i as int));
            assert(taken.last() == list@[i as int]@);
        }
        i = i + 1;
    }
    assert(all.take(all.len() as int) =~= all);
    PartFile { name: part_file(chain, part), content: close_writer(writer) }
}

/// Where the quotes are doubled, different texts stay different.
proof fn lemma_doubled_quotes_differ(a: Seq<char>, b: Seq<char>)
    requires
        doubled_quotes(a) == doubled_quotes(b),
    ensures
        a == b,
    decreases a.len(),
{
    let x = doubled_quotes(a);
    if a.len() == 0 || b.len() == 0 {
        assert(a.len() == 0 && b.len() == 0) by {
            if a.len() > 0 {
                assert(x.len() > 0);
            }
            if b.len() > 0 {
                assert(x.len() > 0);
            }
        }
        assert(a =~= b);
    } else {
        assert(x.last() == a.last());
        assert(x.last() == b.last());
        if a.last() == '"' {
            assert(x.drop_last().drop_last() =~= doubled_quotes(a.drop_last()));
            assert(x.drop_last().drop_last() =~= doubled_quotes(b.drop_last()));
        } else {
            assert(x.drop_last() =~= doubled_quotes(a.drop_last()));
            assert(x.drop_last() =~= doubled_quotes(b.drop_last()));
        }
        lemma_doubled_quotes_differ(a.drop_last(), b.drop_last());
        assert(a =~= a.drop_last().push(a.last()));
        assert(b =~= b.drop_last().push(b.last()));
    }
}

/// Different addresses have different lines, whatever is in them, so that a file in which no
/// address stands twice has no line twice.
pub proof fn different_addresses_have_different_lines(a: Seq<char>, b: Seq<char>)
    requires
        a != b,
    ensures
        csv_record(a) != csv_record(b),
{
    let x = csv_record(a);
    let y = csv_record(b);
    if in_quotes(a) && in_quotes(b) {
        assert(x.subrange(1, x.len() - 2) =~= doubled_quotes(a));
        assert(y.subrange(1, y.len() - 2) =~= doubled_quotes(b));
        if x == y {
            lemma_doubled_quotes_differ(a, b);
        }
    } else if in_quotes(a) {
        assert(x[0] == '"');
        assert(y[0] == b[0] && !needs_quotes(b[0]));
    } else if in_quotes(b) {
        assert(y[0] == '"');
        assert(x[0] == a[0] && !needs_quotes(a[0]));
    } else {
        assert(x.drop_last() =~= a);
        assert(y.drop_last() =~= b);
    }
}

/// Addresses with nothing to quote in them stand in the file as they are, one to a line.
pub proof fn plain_addresses_stand_as_they_are(addresses: Seq<Seq<char>>, address: Seq<char>)
    requires
        address.len() > 0,
        forall|i: int| 0 <= i < address.len() ==> !needs_quotes(#[trigger] address[i]),
    ensures
        csv_text(addresses.push(address)) == csv_text(addresses) + address.push('\n'),
{
    assert(addresses.push(address).drop_last() =~= addresses);
}

/// The file of a part is in the directory `output`, and has the chain and the number of the
/// part in its name, that with three digits at least.
pub proof fn a_file_is_named_after_its_chain_and_part(chain: Seq<char>, part: u32)
    ensures
        part < 1000 ==> exists|number: Seq<char>|
            #![trigger ("output/"@ + chain + "_addresses_1M_part_"@ + number + ".csv.gz"@)]
            part_file_name(chain, part) == "output/"@ + chain + "_addresses_1M_part_"@ + number
                + ".csv.gz"@ && number.len() == 3 && number[0] as int == 48 + part as int / 100
                && number[1] as int == 48 + part as int / 10 % 10 && number[2] as int == 48
                + part as int % 10,
        part >= 1000 ==> part_file_name(chain, part) == "output/"@ + chain + "_addresses_1M_part_"@
            + crate::number::decimal(part as nat) + ".csv.gz"@,
{
    crate::number::three_digits_are_hundreds_tens_and_ones(part as nat);
    let number = crate::number::three_digits(part as nat);
    assert(part_file_name(chain, part) == "output/"@ + chain + "_addresses_1M_part_"@ + number
        + ".csv.gz"@);
}

/// A line of a file is the field as it is, but for a field that is empty or has a comma, a
/// quote or a line break in it: that stands between quotes.
pub proof fn a_line_is_the_field_or_the_field_in_quotes(field: Seq<char>)
    ensures
        ({
            let plain = field.len() > 0 && forall|i: int|
                0 <= i < field.len() ==> {
                    let n = #[trigger] field[i] as int;
                    n != 44 && n != 34 && n != 10 && n != 13
                };
            &&& plain ==> csv_record(field) == field + seq!['\n']
            &&& !plain ==> csv_record(field) == seq!['"'] + doubled_quotes(field) + seq!['"', '\n']
        }),
{
    let plain = field.len() > 0 && forall|i: int|
        0 <= i < field.len() ==> {
            let n = #[trigger] field[i] as int;
            n != 44 && n != 34 && n != 10 && n != 13
        };
    assert(field.push('\n') =~= field + seq!['\n']);
    if plain {
        assert(!in_quotes(field));
    } else if field.len() > 0 {
        let i = choose|i: int|
            0 <= i < field.len() && {
                let n = #[trigger] field[i] as int;
                n == 44 || n == 34 || n == 10 || n == 13
            };
        assert(needs_quotes(field[i]));
    }
}

/// Doubling the quotes goes character by character: a quote becomes two, and every other
/// character stays as it is.
pub proof fn quotes_are_doubled_one_by_one(s: Seq<char>, c: char)
    ensures
        doubled_quotes(Seq::empty()).len() == 0,
        doubled_quotes(s.push(c)) == doubled_quotes(s) + if c as int == 34 {
            seq!['"', '"']
        } else {
            seq![c]
        },
{
    assert(s.push(c).drop_last() =~= s);
}

/// A file begins with the line `address`, and each address adds its line at the end.
pub proof fn each_address_adds_its_line(addresses: Seq<Seq<char>>, address: Seq<char>)
    ensures
        csv_text(Seq::empty()) == "address"@ + seq!['\n'],
        csv_text(addresses.push(address)) == csv_text(addresses) + csv_record(address),
{
    reveal_strlit("address");
    let head = "address"@;
    assert(head.len() == 7);
    assert(csv_text(Seq::empty()) == csv_record(head));
    a_line_is_the_field_or_the_field_in_quotes(head);
    assert(head[0] == 'a' && head[1] == 'd' && head[2] == 'd' && head[3] == 'r' && head[4] == 'e'
        && head[5] == 's' && head[6] == 's');
    assert(addresses.push(address).drop_last() =~= addresses);
}

/// Whether a path is taken is asked of that very path.
pub proof fn a_path_is_asked_for_as_it_is<F: Fn(&str) -> bool>(
    is_taken: F,
    path: Seq<char>,
    answer: bool,
)
    ensures
        may_answer(is_taken, path, answer) <==> exists|asked: &str|
            asked@ == path && #[trigger] call_ensures(is_taken, (asked,), answer),
{
}

} // verus!
