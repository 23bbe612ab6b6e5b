//! Text: what the crate relies on of `String` and `str`, and the small operations it builds on them.
//!
//! Text is modelled as a sequence of characters. Byte offsets into a text are offsets into its UTF-8
//! encoding.

use vstd::prelude::*;
use vstd::string::*;
use vstd::utf8::*;

verus! {

/// `String::push`: appends one character.
pub assume_specification[ String::push ](s: &mut String, c: char)
    ensures
        final(s)@ == old(s)@.push(c),
;

/// `String::push_str`: appends a text.
pub assume_specification[ String::push_str ](s: &mut String, t: &str)
    ensures
        final(s)@ == old(s)@ + t@,
;

/// `char::len_utf8`: how many bytes the UTF-8 encoding of a character has.
pub assume_specification[ char::len_utf8 ](c: char) -> (n: usize)
    ensures
        n == encode_scalar(c as u32).len(),
;

/// `str`'s `==`: two texts are equal when they hold the same characters.
pub assume_specification[ <str as PartialEq<str>>::eq ](a: &str, b: &str) -> (r: bool)
    ensures
        r == (a@ == b@),
;

/// The decimal digit of a number below ten.
pub open spec fn digit(n: nat) -> char {
    (('0' as u32) + n) as char
}

/// A number written in decimal, without leading zeros.
pub open spec fn decimal(n: nat) -> Seq<char>
    decreases n,
{
    if n < 10 {
        seq![digit(n)]
    } else {
        decimal(n / 10).push(digit(n % 10))
    }
}

/// The decimal digit of a number below ten.
fn digit_char(n: usize) -> (c: char)
    requires
        n < 10,
    ensures
        c == digit(n as nat),
{
    ((48u8 + n as u8) as char)
}

/// Appends a number in decimal.
pub(crate) fn push_decimal(s: &mut String, n: usize)
    ensures
        final(s)@ == old(s)@ + decimal(n as nat),
    decreases n,
{
    if n >= 10 {
        push_decimal(s, n / 10);
    }
    s.push(digit_char(n % 10));
}

/// Whether two texts hold the same characters.
pub(crate) fn same_text(a: &str, b: &str) -> (r: bool)
    ensures
        r == (a@ == b@),
{
    *a == *b
}

/// Whether `a` comes before `b` in the order of texts, or is the same: character by character, and a text before one
/// that goes on.
pub open spec fn at_most(a: Seq<char>, b: Seq<char>) -> bool
    decreases a.len(),
{
    if a.len() == 0 {
        true
    } else if b.len() == 0 {
        false
    } else if a[0] == b[0] {
        at_most(a.drop_first(), b.drop_first())
    } else {
        a[0] < b[0]
    }
}

/// Whether `a` comes before `b` in the order of texts, or is the same.
pub(crate) fn text_at_most(a: &str, b: &str) -> (r: bool)
    ensures
        r == at_most(a@, b@),
{
    let x = chars_of(a);
    let y = chars_of(b);
    let mut i: usize = 0;
    assert(a@.skip(0) =~= a@);
    assert(b@.skip(0) =~= b@);
    while i < x.len() && i < y.len()
        invariant
            x@ == a@,
            y@ == b@,
            i <= x@.len(),
            i <= y@.len(),
            at_most(a@, b@) == at_most(a@.skip(i as int), b@.skip(i as int)),
        decreases x@.len() - i,
    {
        if x[i] != y[i] {
            return x[i] < y[i];
        }
        assert(a@.skip(i as int).drop_first() =~= a@.skip(i + 1));
        assert(b@.skip(i as int).drop_first() =~= b@.skip(i + 1));
        i = i + 1;
    }
    i == x.len()
}

/// Several texts.
pub open spec fn texts(strings: Seq<String>) -> Seq<Seq<char>> {
    Seq::new(strings.len(), |i: int| strings[i]@)
}

/// A copy of several texts.
pub(crate) fn copy_texts(strings: &Vec<String>) -> (r: Vec<String>)
    ensures
        texts(r@) == texts(strings@),
{
    let mut r: Vec<String> = Vec::new();
    for i in 0..strings.len()
        invariant
            r@.len() == i,
            forall|j: int| 0 <= j < i ==> (#[trigger] r@[j])@ == strings@[j]@,
    {
        r.push(strings[i].clone());
    }
    assert(texts(r@) =~= texts(strings@));
    r
}

/// Whether two lists hold the same texts in the same order.
pub(crate) fn same_texts(a: &Vec<String>, b: &Vec<String>) -> (r: bool)
    ensures
        r == (texts(a@) == texts(b@)),
{
    if a.len() != b.len() {
        assert(texts(a@).len() != texts(b@).len());
        return false;
    }
    for i in 0..a.len()
        invariant
            a@.len() == b@.len(),
            forall|j: int| 0 <= j < i ==> (#[trigger] a@[j])@ == b@[j]@,
    {
        if !same_text(a[i].as_str(), b[i].as_str()) {
            assert(texts(a@)[i as int] != texts(b@)[i as int]);
            return false;
        }
    }
    assert(texts(a@) =~= texts(b@));
    true
}

/// The characters of a text.
pub(crate) fn chars_of(s: &str) -> (r: Vec<char>)
    ensures
        r@ == s@,
{
    let mut r: Vec<char> = Vec::new();
    for c in it: s.chars()
        invariant
            it.seq() == s@,
            r@ == s@.take(it.index() as int),
    {
        r.push(c);
    }
    r
}

/// The text made of the given characters.
pub(crate) fn string_of(chars: &Vec<char>) -> (r: String)
    ensures
        r@ == chars@,
{
    let mut r = String::new();
    for i in 0..chars.len()
        invariant
            r@ == chars@.take(i as int),
    {
        r.push(chars[i]);
    }
    r
}

/// How many bytes the UTF-8 encoding of a text takes.
pub open spec fn byte_len(s: Seq<char>) -> nat {
    encode_utf8(s).len()
}

/// Encoding one more character appends its bytes.
pub proof fn lemma_encode_push(s: Seq<char>, c: char)
    ensures
        encode_utf8(s.push(c)) == encode_utf8(s) + encode_scalar(c as u32),
    decreases s.len(),
{
    reveal_with_fuel(encode_utf8, 2);
    if s.len() == 0 {
        assert(s.push(c).drop_first() =~= Seq::<char>::empty());
        assert(encode_utf8(s.push(c)) =~= encode_scalar(c as u32));
    } else {
        lemma_encode_push(s.drop_first(), c);
        assert(s.push(c).drop_first() =~= s.drop_first().push(c));
        assert(encode_utf8(s.push(c)) =~= encode_utf8(s) + encode_scalar(c as u32));
    }
}

/// Encoding a concatenation concatenates the encodings.
pub proof fn lemma_encode_concat(a: Seq<char>, b: Seq<char>)
    ensures
        encode_utf8(a + b) == encode_utf8(a) + encode_utf8(b),
    decreases b.len(),
{
    if b.len() == 0 {
        assert(a + b =~= a);
        assert(encode_utf8(a) + encode_utf8(b) =~= encode_utf8(a));
    } else {
        let init = b.drop_last();
        lemma_encode_concat(a, init);
        lemma_encode_push(a + init, b.last());
        lemma_encode_push(init, b.last());
        assert((a + init).push(b.last()) =~= a + b);
        assert(init.push(b.last()) =~= b);
        assert(encode_utf8(a + b) =~= encode_utf8(a) + encode_utf8(b));
    }
}

/// Texts with equal encodings are equal.
pub proof fn lemma_encode_injective(a: Seq<char>, b: Seq<char>)
    requires
        encode_utf8(a) == encode_utf8(b),
    ensures
        a == b,
{
    encode_utf8_decode_utf8(a);
    encode_utf8_decode_utf8(b);
}

/// The end of a whole number of characters is a character boundary of the encoding.
pub proof fn lemma_prefix_is_boundary(a: Seq<char>, b: Seq<char>)
    ensures
        is_char_boundary(encode_utf8(a + b), byte_len(a) as int),
    decreases a.len(),
{
    encode_utf8_valid_utf8(a + b);
    lemma_encode_concat(a, b);
    if a.len() > 0 {
        let whole = a + b;
        encode_utf8_first_scalar(whole);
        assert(whole.drop_first() =~= a.drop_first() + b);
        lemma_prefix_is_boundary(a.drop_first(), b);
        lemma_encode_concat(a.drop_first(), b);
        assert(pop_first_scalar(encode_utf8(whole)) =~= encode_utf8(whole.drop_first()));
        encode_utf8_valid_utf8(whole.drop_first());
    }
}

/// Splits a text after its first `k` characters, which take `mid` bytes.
pub(crate) fn split_text<'a>(s: &'a str, mid: usize, Ghost(k): Ghost<int>) -> (r: (&'a str, &'a str))
    requires
        0 <= k <= s@.len(),
        mid == byte_len(s@.take(k)),
    ensures
        r.0@ == s@.take(k),
        r.1@ == s@.skip(k),
{
    proof {
        lemma_prefix_is_boundary(s@.take(k), s@.skip(k));
        assert(s@.take(k) + s@.skip(k) =~= s@);
        lemma_encode_concat(s@.take(k), s@.skip(k));
    }
    let r = s.split_at(mid);
    proof {
        assert(s.spec_bytes().subrange(0, mid as int) =~= encode_utf8(s@.take(k)));
        assert(s.spec_bytes().subrange(mid as int, s.spec_bytes().len() as int) =~= encode_utf8(s@.skip(k)));
        lemma_encode_injective(r.0@, s@.take(k));
        lemma_encode_injective(r.1@, s@.skip(k));
    }
    r
}

/// The length of a text in bytes.
pub(crate) fn text_bytes(s: &str) -> (n: usize)
    ensures
        n == byte_len(s@),
{
    s.as_bytes().len()
}

/// Some texts with a separator between them.
pub open spec fn joined(parts: Seq<Seq<char>>, separator: Seq<char>) -> Seq<char>
    decreases parts.len(),
{
    if parts.len() == 0 {
        Seq::<char>::empty()
    } else if parts.len() == 1 {
        parts[0]
    } else {
        joined(parts.drop_last(), separator) + separator + parts.last()
    }
}

/// Some texts with a separator between them.
pub(crate) fn join(parts: &Vec<String>, separator: &str) -> (r: String)
    ensures
        r@ == joined(texts(parts@), separator@),
{
    let ghost all = texts(parts@);
    let mut r = String::new();
    assert(all.take(0) =~= Seq::<Seq<char>>::empty());
    for i in 0..parts.len()
        invariant
            all == texts(parts@),
            r@ == joined(all.take(i as int), separator@),
    {
        if i > 0 {
            r.push_str(separator);
        }
        r.push_str(parts[i].as_str());
        proof {
            assert(all.take(i + 1).drop_last() =~= all.take(i as int));
            if i == 0 {
                assert(r@ =~= all[0]);
            }
        }
    }
    assert(all.take(parts@.len() as int) =~= all);
    r
}

/// Every text comes before itself or is the same.
pub proof fn lemma_at_most_reflexive(a: Seq<char>)
    ensures
        at_most(a, a),
    decreases a.len(),
{
    if a.len() > 0 {
        lemma_at_most_reflexive(a.drop_first());
    }
}

/// Of two texts, one comes before the other or is the same.
pub proof fn lemma_at_most_total(a: Seq<char>, b: Seq<char>)
    ensures
        at_most(a, b) || at_most(b, a),
    decreases a.len(),
{
    if a.len() > 0 && b.len() > 0 && a[0] == b[0] {
        lemma_at_most_total(a.drop_first(), b.drop_first());
    }
}

/// The order of texts carries over.
pub proof fn lemma_at_most_transitive(a: Seq<char>, b: Seq<char>, c: Seq<char>)
    requires
        at_most(a, b),
        at_most(b, c),
    ensures
        at_most(a, c),
    decreases a.len(),
{
    if a.len() > 0 && b.len() > 0 && c.len() > 0 && a[0] == b[0] && b[0] == c[0] {
        lemma_at_most_transitive(a.drop_first(), b.drop_first(), c.drop_first());
    }
}

/// Texts of which each comes before the other are the same.
pub proof fn lemma_at_most_antisymmetric(a: Seq<char>, b: Seq<char>)
    requires
        at_most(a, b),
        at_most(b, a),
    ensures
        a == b,
    decreases a.len(),
{
    if a.len() > 0 && b.len() > 0 {
        lemma_at_most_antisymmetric(a.drop_first(), b.drop_first());
        assert(a =~= seq![a[0]] + a.drop_first());
        assert(b =~= seq![b[0]] + b.drop_first());
    } else {
        assert(a =~= b);
    }
}

/// That some texts are in order.
pub open spec fn in_order(list: Seq<Seq<char>>) -> bool {
    forall|i: int, j: int| 0 <= i <= j < list.len() ==> at_most(#[trigger] list[i], #[trigger] list[j])
}

/// Putting a text behind all that do not come after it keeps the order.
pub proof fn lemma_insert_in_order(list: Seq<Seq<char>>, place: int, t: Seq<char>)
    requires
        in_order(list),
        0 <= place <= list.len(),
        place > 0 ==> at_most(list[place - 1], t),
        forall|k: int| place <= k < list.len() ==> at_most(t, #[trigger] list[k]),
    ensures
        in_order(list.insert(place, t)),
{
    let longer = list.insert(place, t);
    assert forall|i: int, j: int| 0 <= i <= j < longer.len() implies at_most(
        #[trigger] longer[i],
        #[trigger] longer[j],
    ) by {
        lemma_at_most_reflexive(t);
        if i < place && j == place {
            assert(at_most(list[i], list[place - 1]));
            lemma_at_most_transitive(list[i], list[place - 1], t);
        } else if i == place && j > place {
            assert(at_most(t, list[j - 1]));
        } else if i < place && j > place {
            assert(at_most(list[i], list[j - 1]));
        } else if i > place {
            assert(at_most(list[i - 1], list[j - 1]));
        } else if j < place {
            assert(at_most(list[i], list[j]));
        }
    }
}

/// A text that is put anywhere among others is one more of them.
proof fn lemma_insert_adds(list: Seq<Seq<char>>, place: int, t: Seq<char>)
    requires
        0 <= place <= list.len(),
    ensures
        list.insert(place, t).to_multiset() == list.to_multiset().insert(t),
{
    let longer = list.insert(place, t);
    vstd::seq_lib::to_multiset_remove(longer, place);
    assert(longer.remove(place) =~= list);
    longer.to_multiset_ensures();
    assert(longer[place] == t);
    assert(longer.contains(t));
    assert(longer.to_multiset() =~= longer.to_multiset().remove(t).insert(t));
}

/// Some texts, sorted.
pub(crate) fn sort_texts(strings: &Vec<String>) -> (r: Vec<String>)
    ensures
        in_order(texts(r@)),
        texts(r@).to_multiset() == texts(strings@).to_multiset(),
{
    let ghost all = texts(strings@);
    let mut r: Vec<String> = Vec::new();
    assert(texts(r@) =~= all.take(0));
    for i in 0..strings.len()
        invariant
            all == texts(strings@),
            in_order(texts(r@)),
            texts(r@).to_multiset() == all.take(i as int).to_multiset(),
    {
        let ghost before = texts(r@);
        let ghost t = strings@[i as int]@;
        let mut place: usize = r.len();
        while place > 0 && !text_at_most(r[place - 1].as_str(), strings[i].as_str())
            invariant
                i < strings@.len(),
                t == strings@[i as int]@,
                before == texts(r@),
                in_order(before),
                place <= r@.len(),
                forall|k: int| place <= k < before.len() ==> at_most(t, #[trigger] before[k]),
            decreases place,
        {
            place = place - 1;
            proof {
                lemma_at_most_total(before[place as int], t);
            }
        }
        proof {
            lemma_insert_in_order(before, place as int, t);
        }
        r.insert(place, strings[i].clone());
        proof {
            assert(texts(r@) =~= before.insert(place as int, t));
            assert(all.take(i + 1) =~= all.take(i as int).push(t));
            vstd::seq_lib::to_multiset_build(all.take(i as int), t);
            lemma_insert_adds(before, place as int, t);
        }
    }
    assert(all.take(strings@.len() as int) =~= all);
    r
}

/// A text as Rust's debug form shows it: in double quotes, with special characters escaped.
pub uninterp spec fn debug_form(s: Seq<char>) -> Seq<char>;

/// The debug form of a text, by `format!("{:?}")`, which is a function of the text.
#[verifier::external_body]
pub(crate) fn debug_string(s: &str) -> (r: String)
    ensures
        r@ == debug_form(s@),
{
    format!("{:?}", s)
}

/// Texts are joined one by one, with the separator between each two and nowhere else.
pub proof fn texts_are_joined_one_by_one(parts: Seq<Seq<char>>, last: Seq<char>, separator: Seq<char>)
    ensures
        joined(Seq::<Seq<char>>::empty(), separator).len() == 0,
        joined(seq![last], separator) == last,
        parts.len() > 0 ==> joined(parts.push(last), separator) == joined(parts, separator) + separator + last,
{
    assert(parts.push(last).drop_last() =~= parts);
}

/// A number is written by its digits: the last is its remainder by ten, and those before it are the rest of it.
pub proof fn numbers_are_written_by_their_digits(n: nat, d: nat)
    requires
        d < 10,
    ensures
        decimal(d).len() == 1,
        decimal(d)[0] as nat == 48 + d,
        n > 0 ==> decimal(10 * n + d) == decimal(n).push(decimal(d)[0]),
{
    if n > 0 {
        assert((10 * n + d) / 10 == n);
        assert((10 * n + d) % 10 == d);
    }
}

/// Texts are ordered by the first character in which they differ, and a text comes before those that it is the start of.
pub proof fn texts_are_ordered_by_their_characters(start: Seq<char>, a: Seq<char>, b: Seq<char>)
    ensures
        at_most(start, start + a),
        a.len() > 0 ==> !at_most(start + a, start),
        a.len() > 0 && b.len() > 0 && a[0] < b[0] ==> at_most(start + a, start + b) && !at_most(start + b, start + a),
    decreases start.len(),
{
    if start.len() == 0 {
        assert(start + a =~= a);
        assert(start + b =~= b);
    } else {
        let rest = start.drop_first();
        texts_are_ordered_by_their_characters(rest, a, b);
        assert((start + a).drop_first() =~= rest + a);
        assert((start + b).drop_first() =~= rest + b);
        assert((start + a)[0] == start[0] && (start + b)[0] == start[0]);
    }
}

} // verus!
