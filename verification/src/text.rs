//! Small operations on text: building it, trimming it, lowering it.
//!
//! Every contract speaks of a string as the sequence of its characters.
use vstd::prelude::*;

verus! {

/// `String::push` appends one character to the end of the string and leaves what was
/// there as it was.
pub assume_specification[ String::push ](s: &mut String, c: char)
    ensures
        final(s)@ == old(s)@.push(c),
;

/// A result whose error is taken as text.
pub open spec fn result_view<T>(r: Result<T, String>) -> Result<T, Seq<char>> {
    match r {
        Ok(value) => Ok(value),
        Err(error) => Err(error@),
    }
}

/// The answer to a question, if one was asked, its error taken as text.
pub open spec fn answer_view<T>(answer: Option<Result<T, String>>) -> Option<Result<T, Seq<char>>> {
    match answer {
        Some(r) => Some(result_view(r)),
        None => None,
    }
}

/// The characters that Unicode gives the property `White_Space`.
pub open spec fn is_space(c: char) -> bool {
    ||| '\u{9}' <= c <= '\u{d}'
    ||| c == ' '
    ||| c == '\u{85}'
    ||| c == '\u{a0}'
    ||| c == '\u{1680}'
    ||| '\u{2000}' <= c <= '\u{200a}'
    ||| c == '\u{2028}'
    ||| c == '\u{2029}'
    ||| c == '\u{202f}'
    ||| c == '\u{205f}'
    ||| c == '\u{3000}'
}

/// `s` without the white space it starts with.
pub open spec fn trimmed_start(s: Seq<char>) -> Seq<char>
    decreases s.len(),
{
    if s.len() > 0 && is_space(s[0]) {
        trimmed_start(s.skip(1))
    } else {
        s
    }
}

/// `s` without the white space it ends with.
pub open spec fn trimmed_end(s: Seq<char>) -> Seq<char>
    decreases s.len(),
{
    if s.len() > 0 && is_space(s.last()) {
        trimmed_end(s.drop_last())
    } else {
        s
    }
}

/// `s` without the white space at either end.
pub open spec fn trimmed(s: Seq<char>) -> Seq<char> {
    trimmed_end(trimmed_start(s))
}

/// `c` with the letters A to Z lowered, and every other character as it is.
pub open spec fn lower_char(c: char) -> char {
    if 'A' <= c <= 'Z' {
        (c as u8 + 32u8) as u8 as char
    } else {
        c
    }
}

/// `s` with the letters A to Z lowered.
pub open spec fn lowered(s: Seq<char>) -> Seq<char> {
    s.map_values(|c: char| lower_char(c))
}

/// The characters of each string of a list.
pub open spec fn texts(list: Seq<String>) -> Seq<Seq<char>> {
    list.map_values(|s: String| s@)
}

/// The characters of `s`, one by one.
pub fn chars_of(s: &str) -> (chars: Vec<char>)
    ensures
        chars@ == s@,
{
    let mut chars: Vec<char> = Vec::new();
    for c in it: s.chars()
        invariant
            it.seq() == s@,
            chars@ == s@.take(it.index()),
    {
        chars.push(c);
    }
    chars
}

/// Whether two strings hold the same characters.
pub fn same_text(a: &str, b: &str) -> (same: bool)
    ensures
        same == (a@ == b@),
{
    let x = a.as_bytes();
    let y = b.as_bytes();
    if x.len() != y.len() {
        return false;
    }
    let mut i: usize = 0;
    while i < x.len()
        invariant
            i <= x.len(),
            x@.len() == y@.len(),
            x@ == vstd::utf8::encode_utf8(a@),
            y@ == vstd::utf8::encode_utf8(b@),
            x@.take(i as int) == y@.take(i as int),
        decreases x.len() - i,
    {
        if x[i] != y[i] {
            return false;
        }
        assert(x@.take(i + 1) =~= x@.take(i as int).push(x@[i as int]));
        assert(y@.take(i + 1) =~= y@.take(i as int).push(y@[i as int]));
        i = i + 1;
    }
    proof {
        assert(x@.take(x@.len() as int) =~= x@);
        assert(y@.take(y@.len() as int) =~= y@);
        vstd::utf8::encode_utf8_decode_utf8(a@);
        vstd::utf8::encode_utf8_decode_utf8(b@);
    }
    true
}

/// `a` followed by `b`.
pub fn join(a: &str, b: &str) -> (joined: String)
    ensures
        joined@ == a@ + b@,
{
    let mut joined = a.to_owned();
    joined.append(b);
    joined
}

/// Whether `c` is white space.
pub fn space(c: char) -> (is: bool)
    ensures
        is == is_space(c),
{
    ('\u{9}' <= c && c <= '\u{d}') || c == ' ' || c == '\u{85}' || c == '\u{a0}' || c == '\u{1680}'
        || ('\u{2000}' <= c && c <= '\u{200a}') || c == '\u{2028}' || c == '\u{2029}' || c
        == '\u{202f}' || c == '\u{205f}' || c == '\u{3000}'
}

/// `s` without the white space at either end.
pub fn trim(s: &str) -> (kept: &str)
    ensures
        kept@ == trimmed(s@),
{
    let chars = chars_of(s);
    let mut start: usize = 0;
    assert(s@.skip(0) =~= s@);
    while start < chars.len() && space(chars[start])
        invariant
            start <= chars.len(),
            chars@ == s@,
            trimmed_start(s@) == trimmed_start(s@.skip(start as int)),
        decreases chars.len() - start,
    {
        assert(s@.skip(start as int).skip(1) =~= s@.skip(start + 1));
        start = start + 1;
    }
    let ghost rest = s@.skip(start as int);
    assert(trimmed_start(s@) == rest);
    let mut end: usize = chars.len();
    assert(s@.subrange(start as int, end as int) =~= rest);
    while end > start && space(chars[end - 1])
        invariant
            start <= end <= chars.len(),
            chars@ == s@,
            rest == s@.skip(start as int),
            trimmed_end(rest) == trimmed_end(s@.subrange(start as int, end as int)),
        decreases end,
    {
        assert(s@.subrange(start as int, end as int).drop_last() =~= s@.subrange(
            start as int,
            end - 1,
        ));
        end = end - 1;
    }
    s.substring_char(start, end)
}

/// `c` with the letters A to Z lowered.
pub fn lower(c: char) -> (low: char)
    ensures
        low == lower_char(c),
{
    if 'A' <= c && c <= 'Z' {
        (c as u8 + 32u8) as char
    } else {
        c
    }
}

/// `s` with the letters A to Z lowered.
pub fn to_lower(s: &str) -> (low: String)
    ensures
        low@ == lowered(s@),
{
    let mut low = String::new();
    for c in it: s.chars()
        invariant
            it.seq() == s@,
            low@ == lowered(s@.take(it.index())),
    {
        proof {
            assert(s@.take(it.index() + 1) =~= s@.take(it.index()).push(c));
        }
        low.push(lower(c));
        assert(low@ =~= lowered(s@.take(it.index() + 1)));
    }
    assert(s@.take(s@.len() as int) =~= s@);
    low
}

/// Lowering twice is lowering once.
pub proof fn lowering_is_idempotent(s: Seq<char>)
    ensures
        lowered(lowered(s)) == lowered(s),
{
    assert(lowered(lowered(s)) =~= lowered(s));
}

/// `list` with `text` at the end, unless it holds it already.
pub open spec fn with_text(list: Seq<Seq<char>>, text: Seq<char>) -> Seq<Seq<char>> {
    if list.contains(text) {
        list
    } else {
        list.push(text)
    }
}

/// `list` with each of the texts that it does not hold yet.
pub open spec fn with_texts(list: Seq<Seq<char>>, more: Seq<Seq<char>>) -> Seq<Seq<char>>
    decreases more.len(),
{
    if more.len() == 0 {
        list
    } else {
        with_text(with_texts(list, more.drop_last()), more.last())
    }
}

/// However texts come in, each is kept once, and none is kept that did not come in.
pub proof fn each_text_is_kept_once(list: Seq<Seq<char>>, more: Seq<Seq<char>>)
    requires
        list.no_duplicates(),
    ensures
        with_texts(list, more).no_duplicates(),
        forall|a: Seq<char>|
            #[trigger] with_texts(list, more).contains(a) <==> list.contains(a)
                || more.contains(a),
    decreases more.len(),
{
    if more.len() > 0 {
        let fewer = more.drop_last();
        let last = more.last();
        each_text_is_kept_once(list, fewer);
        let kept = with_texts(list, fewer);
        let all = with_texts(list, more);
        assert(more =~= fewer.push(last));
        assert forall|a: Seq<char>| #[trigger] all.contains(a) <==> list.contains(a)
            || more.contains(a) by {
            if fewer.contains(a) {
                let i = choose|i: int| 0 <= i < fewer.len() && fewer[i] == a;
                assert(more[i] == a);
            }
            if more.contains(a) {
                let i = choose|i: int| 0 <= i < more.len() && more[i] == a;
                if i < fewer.len() {
                    assert(fewer[i] == a);
                }
            }
            if kept.contains(a) {
                let i = choose|i: int| 0 <= i < kept.len() && kept[i] == a;
                assert(all[i] == a);
            }
            if a == last {
                assert(more[more.len() - 1] == a);
                if !kept.contains(last) {
                    assert(all[kept.len() as int] == a);
                }
            }
            if all.contains(a) {
                let i = choose|i: int| 0 <= i < all.len() && all[i] == a;
                if i < kept.len() {
                    assert(kept[i] == a);
                }
            }
        }
    }
}

/// Which texts are kept, and how many, depends neither on the order in which they come in
/// nor on how often each does.
pub proof fn order_of_arrival_does_not_matter(first: Seq<Seq<char>>, second: Seq<Seq<char>>)
    requires
        forall|a: Seq<char>| #[trigger] first.contains(a) <==> second.contains(a),
    ensures
        with_texts(Seq::empty(), first).to_set() == with_texts(Seq::empty(), second).to_set(),
        with_texts(Seq::empty(), first).len() == with_texts(Seq::empty(), second).len(),
{
    let none = Seq::<Seq<char>>::empty();
    each_text_is_kept_once(none, first);
    each_text_is_kept_once(none, second);
    let a_list = with_texts(none, first);
    let b_list = with_texts(none, second);
    assert forall|a: Seq<char>| #[trigger] a_list.to_set().contains(a) == b_list.to_set().contains(
        a,
    ) by {
        assert(a_list.contains(a) == first.contains(a));
        assert(b_list.contains(a) == second.contains(a));
    }
    assert(a_list.to_set() =~= b_list.to_set());
    a_list.unique_seq_to_set();
    b_list.unique_seq_to_set();
}

/// Texts that come in one after the other are kept as if they came in together.
pub proof fn texts_may_come_in_several_times(
    list: Seq<Seq<char>>,
    first: Seq<Seq<char>>,
    second: Seq<Seq<char>>,
)
    ensures
        with_texts(with_texts(list, first), second) == with_texts(list, first + second),
    decreases second.len(),
{
    if second.len() == 0 {
        assert(first + second =~= first);
    } else {
        texts_may_come_in_several_times(list, first, second.drop_last());
        assert((first + second).drop_last() =~= first + second.drop_last());
    }
}

/// What the list held at first stays in front.
pub proof fn first_texts_stay_in_front(list: Seq<Seq<char>>, more: Seq<Seq<char>>)
    ensures
        list.len() <= with_texts(list, more).len(),
        with_texts(list, more).take(list.len() as int) == list,
    decreases more.len(),
{
    if more.len() == 0 {
        assert(list.take(list.len() as int) =~= list);
    } else {
        first_texts_stay_in_front(list, more.drop_last());
        assert(with_texts(list, more).take(list.len() as int) =~= with_texts(
            list,
            more.drop_last(),
        ).take(list.len() as int));
    }
}

/// Whether a list holds a text.
pub fn holds(list: &Vec<String>, text: &str) -> (held: bool)
    ensures
        held == texts(list@).contains(text@),
{
    let mut i: usize = 0;
    while i < list.len()
        invariant
            i <= list.len(),
            forall|k: int| 0 <= k < i ==> (#[trigger] list@[k])@ != text@,
        decreases list.len() - i,
    {
        if same_text(list[i].as_str(), text) {
            assert(texts(list@)[i as int] == text@);
            return true;
        }
        i = i + 1;
    }
    assert(!texts(list@).contains(text@)) by {
        if texts(list@).contains(text@) {
            let k = choose|k: int| 0 <= k < list@.len() && texts(list@)[k] == text@;
            assert(list@[k]@ == text@);
        }
    }
    false
}

/// White space is a tab, a line break of any kind, a space, or one of the spaces that Unicode
/// lists beside these.
pub proof fn white_space_is_as_unicode_lists_it(c: char)
    ensures
        is_space(c) <==> {
            let n = c as int;
            ||| 9 <= n <= 13
            ||| n == 32
            ||| n == 0x85
            ||| n == 0xa0
            ||| n == 0x1680
            ||| 0x2000 <= n <= 0x200a
            ||| n == 0x2028
            ||| n == 0x2029
            ||| n == 0x202f
            ||| n == 0x205f
            ||| n == 0x3000
        },
{
}

/// White space in front goes.
proof fn lemma_trimmed_start(front: Seq<char>, rest: Seq<char>)
    requires
        forall|i: int| 0 <= i < front.len() ==> is_space(#[trigger] front[i]),
        rest.len() > 0 ==> !is_space(rest[0]),
    ensures
        trimmed_start(front + rest) == rest,
    decreases front.len(),
{
    let whole = front + rest;
    if front.len() == 0 {
        assert(whole =~= rest);
    } else {
        assert(whole[0] == front[0]);
        assert(whole.skip(1) =~= front.skip(1) + rest);
        lemma_trimmed_start(front.skip(1), rest);
    }
}

/// White space behind goes.
proof fn lemma_trimmed_end(rest: Seq<char>, back: Seq<char>)
    requires
        forall|i: int| 0 <= i < back.len() ==> is_space(#[trigger] back[i]),
        rest.len() > 0 ==> !is_space(rest.last()),
    ensures
        trimmed_end(rest + back) == rest,
    decreases back.len(),
{
    let whole = rest + back;
    if back.len() == 0 {
        assert(whole =~= rest);
    } else {
        assert(whole.last() == back.last());
        assert(whole.drop_last() =~= rest + back.drop_last());
        lemma_trimmed_end(rest, back.drop_last());
    }
}

/// Of a text that begins and ends with white space, trimming leaves what is between, to the
/// character; nothing is left where there is nothing between.
pub proof fn trimming_leaves_what_is_between(front: Seq<char>, kept: Seq<char>, back: Seq<char>)
    requires
        forall|i: int| 0 <= i < front.len() ==> is_space(#[trigger] front[i]),
        forall|i: int| 0 <= i < back.len() ==> is_space(#[trigger] back[i]),
        kept.len() > 0 ==> !is_space(kept[0]) && !is_space(kept.last()),
    ensures
        trimmed(front + kept + back) == kept,
{
    if kept.len() == 0 {
        let none = Seq::<char>::empty();
        assert(front + kept + back =~= (front + back) + none);
        lemma_trimmed_start(front + back, none);
        assert(kept =~= none);
    } else {
        assert(front + kept + back =~= front + (kept + back));
        lemma_trimmed_start(front, kept + back);
        lemma_trimmed_end(kept, back);
    }
}

/// Lowering a text changes the letters A to Z into a to z, each where it stands, and no other
/// character.
pub proof fn lowering_goes_character_by_character(s: Seq<char>)
    ensures
        lowered(s).len() == s.len(),
        forall|i: int|
            0 <= i < s.len() ==> (#[trigger] lowered(s)[i]) as int == if 65 <= s[i] as int <= 90 {
                s[i] as int + 32
            } else {
                s[i] as int
            },
{
}

/// A list of strings is taken string by string.
pub proof fn texts_go_string_by_string(list: Seq<String>)
    ensures
        texts(list).len() == list.len(),
        forall|i: int| 0 <= i < list.len() ==> #[trigger] texts(list)[i] == list[i]@,
{
}

/// Texts that come in new stand behind what was there, in the order in which each of them
/// came first.
pub proof fn new_texts_stand_in_order_of_arrival(
    list: Seq<Seq<char>>,
    more: Seq<Seq<char>>,
    p: int,
    q: int,
)
    requires
        list.no_duplicates(),
        list.len() <= p < q < with_texts(list, more).len(),
    ensures
        exists|i: int|
            0 <= i < more.len() && #[trigger] more[i] == with_texts(list, more)[p] && forall|j: int|
                0 <= j <= i ==> #[trigger] more[j] != with_texts(list, more)[q],
    decreases more.len(),
{
    let all = with_texts(list, more);
    let fewer = more.drop_last();
    let kept = with_texts(list, fewer);
    each_text_is_kept_once(list, fewer);
    first_texts_stay_in_front(list, fewer);
    if q < kept.len() {
        new_texts_stand_in_order_of_arrival(list, fewer, p, q);
        let i = choose|i: int|
            0 <= i < fewer.len() && #[trigger] fewer[i] == kept[p] && forall|j: int|
                0 <= j <= i ==> #[trigger] fewer[j] != kept[q];
        assert(more[i] == all[p]);
        assert forall|j: int| 0 <= j <= i implies #[trigger] more[j] != all[q] by {
            assert(fewer[j] != kept[q]);
        }
    } else {
        assert(kept.contains(kept[p]));
        assert(!list.contains(kept[p])) by {
            if list.contains(kept[p]) {
                let m = choose|m: int| 0 <= m < list.len() && list[m] == kept[p];
                assert(kept.take(list.len() as int)[m] == kept[m]);
            }
        }
        let i = choose|i: int| 0 <= i < fewer.len() && fewer[i] == kept[p];
        assert(more[i] == all[p]);
        assert forall|j: int| 0 <= j <= i implies #[trigger] more[j] != all[q] by {
            assert(fewer.contains(fewer[j]));
            assert(kept.contains(fewer[j]));
        }
    }
}

/// Different texts that are all new are all kept, as they came.
pub proof fn different_texts_are_kept_as_they_came(list: Seq<Seq<char>>, more: Seq<Seq<char>>)
    requires
        more.no_duplicates(),
        forall|i: int| 0 <= i < more.len() ==> !list.contains(#[trigger] more[i]),
    ensures
        with_texts(list, more) == list + more,
    decreases more.len(),
{
    if more.len() == 0 {
        assert(list + more =~= list);
    } else {
        let fewer = more.drop_last();
        different_texts_are_kept_as_they_came(list, fewer);
        let last = more[more.len() - 1];
        assert(!(list + fewer).contains(last)) by {
            if (list + fewer).contains(last) {
                let k = choose|k: int| 0 <= k < (list + fewer).len() && (list + fewer)[k] == last;
                if k < list.len() {
                    assert(list[k] == last);
                } else {
                    assert(more[k - list.len()] == last);
                }
            }
        }
        assert((list + fewer).push(last) =~= list + more);
    }
}

/// A text that is there already changes nothing, wherever it comes.
pub proof fn a_text_that_is_there_changes_nothing(
    list: Seq<Seq<char>>,
    before: Seq<Seq<char>>,
    text: Seq<char>,
    after: Seq<Seq<char>>,
)
    requires
        list.contains(text),
    ensures
        with_texts(list, before.push(text) + after) == with_texts(list, before + after),
    decreases after.len(),
{
    if after.len() == 0 {
        assert(before.push(text) + after =~= before.push(text));
        assert(before + after =~= before);
        assert(before.push(text).drop_last() =~= before);
        first_texts_stay_in_front(list, before);
        let m = choose|m: int| 0 <= m < list.len() && list[m] == text;
        assert(with_texts(list, before).take(list.len() as int)[m] == text);
        assert(with_texts(list, before).contains(text));
    } else {
        assert((before.push(text) + after).drop_last() =~= before.push(text) + after.drop_last());
        assert((before + after).drop_last() =~= before + after.drop_last());
        a_text_that_is_there_changes_nothing(list, before, text, after.drop_last());
    }
}

/// A text that is new is added at the end, and one that is there already is not.
pub proof fn a_new_text_is_added_at_the_end(list: Seq<Seq<char>>, text: Seq<char>)
    ensures
        list.contains(text) ==> with_text(list, text) == list,
        !list.contains(text) ==> with_text(list, text) == list + seq![text],
        with_texts(list, Seq::empty()) == list,
        with_texts(list, seq![text]) == with_text(list, text),
{
    assert(list.push(text) =~= list + seq![text]);
    assert(seq![text].drop_last() =~= Seq::<Seq<char>>::empty());
    assert(with_texts(list, seq![text].drop_last()) == list);
}

/// A result is taken with its value as it is and its error to the character.
pub proof fn results_are_taken_as_they_are<T>(value: T, error: String)
    ensures
        result_view(Ok::<T, String>(value)) == Ok::<T, Seq<char>>(value),
        result_view(Err::<T, String>(error)) == Err::<T, Seq<char>>(error@),
        answer_view(Some(Ok::<T, String>(value))) == Some(Ok::<T, Seq<char>>(value)),
        answer_view(Some(Err::<T, String>(error))) == Some(Err::<T, Seq<char>>(error@)),
        answer_view(None::<Result<T, String>>) is None,
{
}

} // verus!
