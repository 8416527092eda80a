//! Text helpers shared by the other modules: comparing string slices,
//! splitting at a separator, and the `application/x-www-form-urlencoded`
//! byte encoding that query strings use.

use vstd::prelude::*;
use vstd::string::*;
use vstd::utf8::*;

verus! {

/// Appends one character to `target`.
///
/// Trusted: `String::push` of the standard library, which appends the given
/// character to the end of the string and changes nothing else.
#[verifier::external_body]
pub(crate) fn push_char(target: &mut String, c: char)
    ensures
        final(target)@ == old(target)@.push(c),
{
    target.push(c)
}

/// Two texts are equal exactly when their UTF-8 encodings are.
pub proof fn lemma_utf8_injective(a: Seq<char>, b: Seq<char>)
    ensures
        (encode_utf8(a) == encode_utf8(b)) <==> (a == b),
{
    encode_utf8_decode_utf8(a);
    encode_utf8_decode_utf8(b);
}

/// Whether two string slices hold the same text.
pub fn text_eq(a: &str, b: &str) -> (same: bool)
    ensures
        same == (a@ == b@),
{
    let x = a.as_bytes();
    let y = b.as_bytes();
    proof {
        lemma_utf8_injective(a@, b@);
    }
    if x.len() != y.len() {
        return false;
    }
    let mut i: usize = 0;
    while i < x.len()
        invariant
            i <= x@.len(),
            x@.len() == y@.len(),
            x@ == encode_utf8(a@),
            y@ == encode_utf8(b@),
            (x@ == y@) <==> (a@ == b@),
            forall|k: int| 0 <= k < i ==> x@[k] == y@[k],
        decreases x@.len() - i,
    {
        if x[i] != y[i] {
            return false;
        }
        i += 1;
    }
    assert(x@ =~= y@);
    true
}

/// The pieces of `s` between occurrences of `sep`, in order. There is always
/// at least one piece; a separator at either end leaves an empty piece there.
pub open spec fn split(s: Seq<char>, sep: char) -> Seq<Seq<char>>
    decreases s.len(),
{
    if s.len() == 0 {
        seq![Seq::<char>::empty()]
    } else {
        let before = split(s.drop_last(), sep);
        if s.last() == sep {
            before.push(Seq::<char>::empty())
        } else {
            before.drop_last().push(before.last().push(s.last()))
        }
    }
}

/// The pieces written one after another with `sep` between neighbours.
pub open spec fn join(pieces: Seq<Seq<char>>, sep: char) -> Seq<char>
    decreases pieces.len(),
{
    if pieces.len() == 0 {
        Seq::<char>::empty()
    } else if pieces.len() == 1 {
        pieces[0]
    } else {
        join(pieces.drop_last(), sep).push(sep) + pieces.last()
    }
}

/// Splitting loses nothing and cuts at every separator: the pieces joined
/// again give the text back, and no piece holds the separator.
pub proof fn lemma_split_join(s: Seq<char>, sep: char)
    ensures
        split(s, sep).len() >= 1,
        join(split(s, sep), sep) == s,
        forall|k: int, j: int|
            0 <= k < split(s, sep).len() && 0 <= j < split(s, sep)[k].len() ==> split(
                s,
                sep,
            )[k][j] != sep,
    decreases s.len(),
{
    if s.len() == 0 {
        assert(join(split(s, sep), sep) =~= s);
    } else {
        let head = s.drop_last();
        lemma_split_join(head, sep);
        let before = split(head, sep);
        let after = split(s, sep);
        if s.last() == sep {
            assert(after.drop_last() =~= before);
            assert(join(after, sep) =~= s);
        } else {
            let grown = before.last().push(s.last());
            assert(after.last() == grown);
            if before.len() == 1 {
                assert(join(before, sep) == before[0]);
                assert(after.len() == 1);
                assert(after[0] == grown);
                assert(grown =~= s);
                assert(join(after, sep) =~= s);
            } else {
                assert(after.drop_last() =~= before.drop_last());
                let stem = join(before.drop_last(), sep).push(sep);
                assert(head == stem + before.last());
                assert(join(after, sep) == stem + grown);
                assert(stem + grown =~= (stem + before.last()).push(s.last()));
                assert(head.push(s.last()) =~= s);
            }
        }
    }
}

/// Whether the form encoding writes byte `b` as it is: the ASCII letters and
/// digits and `*`, `-`, `.`, `_`.
pub open spec fn form_plain(b: u8) -> bool {
    b == 0x2a || b == 0x2d || b == 0x2e || b == 0x5f || (0x30 <= b && b <= 0x39) || (0x41 <= b
        && b <= 0x5a) || (0x61 <= b && b <= 0x7a)
}

/// The upper-case hexadecimal digit for `n` below sixteen.
pub open spec fn hex_upper(n: u8) -> char {
    if n < 10 {
        (0x30 + n) as u8 as char
    } else {
        (0x37 + n) as u8 as char
    }
}

/// How the form encoding writes one byte: as it is, a space as `+`, anything
/// else as `%` and two upper-case hexadecimal digits.
pub open spec fn form_encoded_byte(b: u8) -> Seq<char> {
    if form_plain(b) {
        seq![b as char]
    } else if b == 0x20 {
        seq!['+']
    } else {
        seq!['%', hex_upper(b / 16), hex_upper(b % 16)]
    }
}

/// The `application/x-www-form-urlencoded` encoding of a byte string.
pub open spec fn form_encoded(bytes: Seq<u8>) -> Seq<char>
    decreases bytes.len(),
{
    if bytes.len() == 0 {
        Seq::<char>::empty()
    } else {
        form_encoded(bytes.drop_last()) + form_encoded_byte(bytes.last())
    }
}

fn hex_digit(n: u8) -> (c: char)
    requires
        n < 16,
    ensures
        c == hex_upper(n),
{
    if n < 10 {
        (0x30 + n) as char
    } else {
        (0x37 + n) as char
    }
}

fn is_form_plain(b: u8) -> (plain: bool)
    ensures
        plain == form_plain(b),
{
    b == 0x2a || b == 0x2d || b == 0x2e || b == 0x5f || (0x30 <= b && b <= 0x39) || (0x41 <= b
        && b <= 0x5a) || (0x61 <= b && b <= 0x7a)
}

/// Appends the form encoding of the UTF-8 bytes of `text` to `target`.
pub fn push_form_encoded(target: &mut String, text: &str)
    ensures
        final(target)@ == old(target)@ + form_encoded(encode_utf8(text@)),
{
    let bytes = text.as_bytes();
    let ghost start = target@;
    let mut i: usize = 0;
    assert(bytes@.take(0) =~= Seq::<u8>::empty());
    assert(start + form_encoded(bytes@.take(0)) =~= start);
    while i < bytes.len()
        invariant
            i <= bytes@.len(),
            target@ == start + form_encoded(bytes@.take(i as int)),
        decreases bytes@.len() - i,
    {
        let b = bytes[i];
        let ghost before = target@;
        if is_form_plain(b) {
            push_char(target, b as char);
        } else if b == 0x20 {
            push_char(target, '+');
        } else {
            push_char(target, '%');
            push_char(target, hex_digit(b / 16));
            push_char(target, hex_digit(b % 16));
        }
        proof {
            let next = bytes@.take(i as int + 1);
            assert(next.drop_last() =~= bytes@.take(i as int));
            assert(next.last() == b);
            assert(target@ =~= before + form_encoded_byte(b));
            assert(start + form_encoded(next) =~= before + form_encoded_byte(b));
        }
        i += 1;
    }
    assert(bytes@.take(i as int) =~= bytes@);
}

/// The texts of a list of strings, in order.
pub open spec fn texts(strings: Seq<String>) -> Seq<Seq<char>> {
    Seq::new(strings.len(), |i: int| strings[i]@)
}

/// Cuts `text` at every `sep`.
pub fn split_text(text: &str, sep: char) -> (pieces: Vec<String>)
    ensures
        texts(pieces@) == split(text@, sep),
{
    let n = text.unicode_len();
    let mut pieces: Vec<String> = Vec::new();
    let mut start: usize = 0;
    let mut i: usize = 0;
    proof {
        assert(text@.take(0) =~= Seq::<char>::empty());
        assert(texts(pieces@).push(text@.subrange(0, 0)) =~= split(text@.take(0), sep));
    }
    while i < n
        invariant
            start <= i <= n,
            n == text@.len(),
            split(text@.take(i as int), sep) == texts(pieces@).push(
                text@.subrange(start as int, i as int),
            ),
        decreases n - i,
    {
        let ghost done = texts(pieces@);
        let ghost open = text@.subrange(start as int, i as int);
        proof {
            assert(text@.take(i as int + 1).drop_last() =~= text@.take(i as int));
            assert(text@.take(i as int + 1).last() == text@[i as int]);
            assert(done.push(open).drop_last() =~= done);
        }
        if text.get_char(i) == sep {
            pieces.push(String::from_str(text.substring_char(start, i)));
            start = i + 1;
            proof {
                assert(texts(pieces@) =~= done.push(open));
                assert(text@.subrange(start as int, i as int + 1) =~= Seq::<char>::empty());
            }
        } else {
            proof {
                assert(text@.subrange(start as int, i as int + 1) =~= open.push(text@[i as int]));
            }
        }
        i += 1;
    }
    pieces.push(String::from_str(text.substring_char(start, n)));
    proof {
        assert(text@.take(n as int) =~= text@);
        assert(texts(pieces@) =~= split(text@, sep));
    }
    pieces
}

/// Whether `c` does not occur in `s`.
pub open spec fn free_of(s: Seq<char>, c: char) -> bool {
    forall|i: int| 0 <= i < s.len() ==> s[i] != c
}

/// The position of the first `c` in `s`, or the length of `s` where there
/// is none.
pub open spec fn find(s: Seq<char>, c: char) -> int
    decreases s.len(),
{
    if s.len() == 0 {
        0
    } else if s[0] == c {
        0
    } else {
        1 + find(s.drop_first(), c)
    }
}

/// `find` gives a position in or just behind `s`; no `c` stands before
/// it, and one stands at it unless it is the end.
pub proof fn lemma_find(s: Seq<char>, c: char)
    ensures
        0 <= find(s, c) <= s.len(),
        forall|i: int| 0 <= i < find(s, c) ==> s[i] != c,
        find(s, c) < s.len() ==> s[find(s, c)] == c,
        free_of(s, c) <==> find(s, c) == s.len(),
    decreases s.len(),
{
    if s.len() > 0 && s[0] != c {
        let rest = s.drop_first();
        lemma_find(rest, c);
        assert forall|i: int| 0 <= i < find(s, c) implies s[i] != c by {
            if i > 0 {
                assert(s[i] == rest[i - 1]);
            }
        }
        if find(s, c) < s.len() {
            assert(s[find(s, c)] == rest[find(rest, c)]);
        }
        if free_of(s, c) {
            assert forall|i: int| 0 <= i < rest.len() implies rest[i] != c by {
                assert(rest[i] == s[i + 1]);
            }
        }
    }
}

/// The first `c` of a text whose beginning has none is the first `c` of
/// what follows.
pub proof fn lemma_find_behind(a: Seq<char>, b: Seq<char>, c: char)
    requires
        free_of(a, c),
    ensures
        find(a + b, c) == a.len() + find(b, c),
    decreases a.len(),
{
    if a.len() == 0 {
        assert(a + b =~= b);
    } else {
        let rest = a.drop_first();
        assert forall|i: int| 0 <= i < rest.len() implies rest[i] != c by {
            assert(rest[i] == a[i + 1]);
        }
        assert((a + b).drop_first() =~= rest + b);
        assert((a + b)[0] == a[0]);
        lemma_find_behind(rest, b, c);
    }
}

/// A text without the separator is one piece.
pub proof fn lemma_split_whole(s: Seq<char>, sep: char)
    requires
        free_of(s, sep),
    ensures
        split(s, sep) == seq![s],
    decreases s.len(),
{
    if s.len() == 0 {
        assert(s =~= Seq::<char>::empty());
    } else {
        let head = s.drop_last();
        assert forall|i: int| 0 <= i < head.len() implies head[i] != sep by {
            assert(head[i] == s[i]);
        }
        lemma_split_whole(head, sep);
        let before = split(head, sep);
        assert(before.last() == head);
        assert(before.drop_last() =~= Seq::<Seq<char>>::empty());
        assert(head.push(s.last()) =~= s);
        assert(s.last() == s[s.len() - 1]);
        assert(before.drop_last().push(before.last().push(s.last())) =~= seq![s]);
    }
}

/// Cutting a text with a separator in it gives the pieces to the left of
/// that separator and then those to its right.
pub proof fn lemma_split_around(a: Seq<char>, b: Seq<char>, sep: char)
    ensures
        split(a.push(sep) + b, sep) == split(a, sep) + split(b, sep),
    decreases b.len(),
{
    let whole = a.push(sep) + b;
    if b.len() == 0 {
        assert(whole =~= a.push(sep));
        assert(whole.drop_last() =~= a);
        assert(split(a, sep).push(Seq::<char>::empty()) =~= split(a, sep) + split(b, sep));
    } else {
        let head = b.drop_last();
        assert(whole.drop_last() =~= a.push(sep) + head);
        assert(whole.last() == b.last());
        lemma_split_around(a, head, sep);
        lemma_split_join(head, sep);
        let left = split(a, sep);
        let right = split(head, sep);
        if b.last() == sep {
            assert((left + right).push(Seq::<char>::empty()) =~= left + right.push(
                Seq::<char>::empty(),
            ));
        } else {
            assert((left + right).drop_last() =~= left + right.drop_last());
            assert((left + right).last() == right.last());
            assert((left + right.drop_last()).push(right.last().push(b.last())) =~= left
                + right.drop_last().push(right.last().push(b.last())));
        }
    }
}

/// The encoding of a byte string is that of its first byte and then that
/// of the rest.
pub proof fn lemma_form_encoded_front(b: u8, rest: Seq<u8>)
    ensures
        form_encoded(seq![b] + rest) == form_encoded_byte(b) + form_encoded(rest),
    decreases rest.len(),
{
    let whole = seq![b] + rest;
    if rest.len() == 0 {
        assert(whole.drop_last() =~= Seq::<u8>::empty());
        assert(form_encoded(whole.drop_last()) =~= Seq::<char>::empty());
        assert(form_encoded(whole) =~= form_encoded_byte(b) + form_encoded(rest));
    } else {
        assert(whole.drop_last() =~= seq![b] + rest.drop_last());
        assert(whole.last() == rest.last());
        lemma_form_encoded_front(b, rest.drop_last());
        assert(form_encoded(whole) =~= form_encoded_byte(b) + form_encoded(rest));
    }
}

/// Whether `c` is one of the characters that the form encoding writes: a
/// letter or digit of ASCII, or one of `*`, `-`, `.`, `_`, `+`, `%`.
pub open spec fn form_char(c: char) -> bool {
    c == '+' || c == '%' || (c as u32 <= 0x7f && form_plain(c as u32 as u8))
}

/// The form encoding writes nothing but letters and digits of ASCII and
/// `*`, `-`, `.`, `_`, `+`, `%`. So none of `&`, `=`, `?`, `#` and `/`
/// occurs in it.
pub proof fn lemma_form_encoded_chars(bytes: Seq<u8>)
    ensures
        forall|i: int|
            0 <= i < form_encoded(bytes).len() ==> form_char(#[trigger] form_encoded(bytes)[i]),
        free_of(form_encoded(bytes), '&'),
        free_of(form_encoded(bytes), '='),
        free_of(form_encoded(bytes), '?'),
        free_of(form_encoded(bytes), '#'),
        free_of(form_encoded(bytes), '/'),
    decreases bytes.len(),
{
    if bytes.len() > 0 {
        lemma_form_encoded_chars(bytes.drop_last());
        let b = bytes.last();
        assert(form_char(hex_upper(b / 16)));
        assert(form_char(hex_upper(b % 16)));
        assert(forall|k: int|
            0 <= k < form_encoded_byte(b).len() ==> form_char(#[trigger] form_encoded_byte(b)[k]));
    }
    assert(forall|i: int|
        0 <= i < form_encoded(bytes).len() ==> form_char(#[trigger] form_encoded(bytes)[i]));
}

/// The value of a hexadecimal digit of either case.
pub open spec fn hex_value(c: char) -> Option<u8> {
    let n = c as u32;
    if 0x30 <= n && n <= 0x39 {
        Some((n - 0x30) as u8)
    } else if 0x41 <= n && n <= 0x46 {
        Some((n - 0x37) as u8)
    } else if 0x61 <= n && n <= 0x66 {
        Some((n - 0x57) as u8)
    } else {
        None
    }
}

/// The bytes that a form-encoded text of ASCII characters stands for: `+`
/// is a space, `%` with two hexadecimal digits behind it is the byte of
/// that value, and any other character is itself.
pub open spec fn form_decoded(text: Seq<char>) -> Seq<u8>
    decreases text.len(),
{
    if text.len() == 0 {
        Seq::<u8>::empty()
    } else if text[0] == '%' && text.len() >= 3 && hex_value(text[1]) is Some && hex_value(
        text[2],
    ) is Some {
        seq![(hex_value(text[1])->Some_0 * 16 + hex_value(text[2])->Some_0) as u8] + form_decoded(
            text.skip(3),
        )
    } else if text[0] == '+' {
        seq![0x20u8] + form_decoded(text.skip(1))
    } else {
        seq![text[0] as u32 as u8] + form_decoded(text.skip(1))
    }
}

/// The form encoding loses nothing: decoding gives the bytes back.
pub proof fn lemma_form_round_trip(bytes: Seq<u8>)
    ensures
        form_decoded(form_encoded(bytes)) == bytes,
    decreases bytes.len(),
{
    if bytes.len() == 0 {
        assert(form_decoded(form_encoded(bytes)) =~= bytes);
    } else {
        let b = bytes[0];
        let rest = bytes.drop_first();
        assert(bytes =~= seq![b] + rest);
        lemma_form_encoded_front(b, rest);
        lemma_form_round_trip(rest);
        let text = form_encoded(bytes);
        let first = form_encoded_byte(b);
        assert(text == first + form_encoded(rest));
        if form_plain(b) {
            assert(text[0] == first[0]);
            assert(text.skip(1) =~= form_encoded(rest));
            assert((b as char) as u32 as u8 == b);
        } else if b == 0x20 {
            assert(text[0] == first[0]);
            assert(text.skip(1) =~= form_encoded(rest));
        } else {
            assert(text[0] == first[0] && text[1] == first[1] && text[2] == first[2]);
            assert(text.skip(3) =~= form_encoded(rest));
            assert(hex_value(hex_upper(b / 16)) == Some((b / 16) as u8));
            assert(hex_value(hex_upper(b % 16)) == Some((b % 16) as u8));
        }
        assert(form_decoded(text) =~= seq![b] + rest);
    }
}

/// Whether a path segment holds byte `b` as it is: the ASCII letters and
/// digits and `-`, `.`, `_`, `~`.
pub open spec fn segment_plain(b: u8) -> bool {
    b == 0x2d || b == 0x2e || b == 0x5f || b == 0x7e || (0x30 <= b && b <= 0x39) || (0x41 <= b
        && b <= 0x5a) || (0x61 <= b && b <= 0x7a)
}

/// How a path segment holds one byte: as it is, or as `%` and two
/// upper-case hexadecimal digits.
pub open spec fn segment_encoded_byte(b: u8) -> Seq<char> {
    if segment_plain(b) {
        seq![b as char]
    } else {
        seq!['%', hex_upper(b / 16), hex_upper(b % 16)]
    }
}

/// A byte string as one path segment of an address: every byte that is no
/// letter or digit of ASCII and none of `-`, `.`, `_`, `~` is
/// percent-encoded.
pub open spec fn segment_encoded(bytes: Seq<u8>) -> Seq<char>
    decreases bytes.len(),
{
    if bytes.len() == 0 {
        Seq::<char>::empty()
    } else {
        segment_encoded(bytes.drop_last()) + segment_encoded_byte(bytes.last())
    }
}

fn is_segment_plain(b: u8) -> (plain: bool)
    ensures
        plain == segment_plain(b),
{
    b == 0x2d || b == 0x2e || b == 0x5f || b == 0x7e || (0x30 <= b && b <= 0x39) || (0x41 <= b
        && b <= 0x5a) || (0x61 <= b && b <= 0x7a)
}

/// Appends the UTF-8 bytes of `text`, encoded as one path segment, to
/// `target`.
pub fn push_segment_encoded(target: &mut String, text: &str)
    ensures
        final(target)@ == old(target)@ + segment_encoded(encode_utf8(text@)),
{
    let bytes = text.as_bytes();
    let ghost start = target@;
    let mut i: usize = 0;
    assert(bytes@.take(0) =~= Seq::<u8>::empty());
    assert(start + segment_encoded(bytes@.take(0)) =~= start);
    while i < bytes.len()
        invariant
            i <= bytes@.len(),
            target@ == start + segment_encoded(bytes@.take(i as int)),
        decreases bytes@.len() - i,
    {
        let b = bytes[i];
        let ghost before = target@;
        if is_segment_plain(b) {
            push_char(target, b as char);
        } else {
            push_char(target, '%');
            push_char(target, hex_digit(b / 16));
            push_char(target, hex_digit(b % 16));
        }
        proof {
            let next = bytes@.take(i as int + 1);
            assert(next.drop_last() =~= bytes@.take(i as int));
            assert(next.last() == b);
            assert(target@ =~= before + segment_encoded_byte(b));
            assert(start + segment_encoded(next) =~= before + segment_encoded_byte(b));
        }
        i += 1;
    }
    assert(bytes@.take(i as int) =~= bytes@);
}

/// The segment of a byte string is that of its first byte and then that of
/// the rest.
pub proof fn lemma_segment_encoded_front(b: u8, rest: Seq<u8>)
    ensures
        segment_encoded(seq![b] + rest) == segment_encoded_byte(b) + segment_encoded(rest),
    decreases rest.len(),
{
    let whole = seq![b] + rest;
    if rest.len() == 0 {
        assert(whole.drop_last() =~= Seq::<u8>::empty());
        assert(segment_encoded(whole.drop_last()) =~= Seq::<char>::empty());
        assert(segment_encoded(whole) =~= segment_encoded_byte(b) + segment_encoded(rest));
    } else {
        assert(whole.drop_last() =~= seq![b] + rest.drop_last());
        assert(whole.last() == rest.last());
        lemma_segment_encoded_front(b, rest.drop_last());
        assert(segment_encoded(whole) =~= segment_encoded_byte(b) + segment_encoded(rest));
    }
}

/// Whether `c` is one of the characters that an encoded path segment is
/// made of: a letter or digit of ASCII, or one of `-`, `.`, `_`, `~`, `%`.
pub open spec fn segment_char(c: char) -> bool {
    c == '%' || (c as u32 <= 0x7f && segment_plain(c as u32 as u8))
}

/// An encoded path segment holds nothing but letters and digits of ASCII
/// and `-`, `.`, `_`, `~`, `%`. So none of `/`, `?` and `#` occurs in it: it
/// is one segment and ends no path.
pub proof fn lemma_segment_encoded_chars(bytes: Seq<u8>)
    ensures
        forall|i: int|
            0 <= i < segment_encoded(bytes).len() ==> segment_char(
                #[trigger] segment_encoded(bytes)[i],
            ),
        free_of(segment_encoded(bytes), '/'),
        free_of(segment_encoded(bytes), '?'),
        free_of(segment_encoded(bytes), '#'),
    decreases bytes.len(),
{
    if bytes.len() > 0 {
        lemma_segment_encoded_chars(bytes.drop_last());
        let b = bytes.last();
        assert(segment_char(hex_upper(b / 16)));
        assert(segment_char(hex_upper(b % 16)));
        assert(forall|k: int|
            0 <= k < segment_encoded_byte(b).len() ==> segment_char(
                #[trigger] segment_encoded_byte(b)[k],
            ));
    }
    assert(forall|i: int|
        0 <= i < segment_encoded(bytes).len() ==> segment_char(
            #[trigger] segment_encoded(bytes)[i],
        ));
}

/// The bytes that a percent-encoded text of ASCII characters stands for:
/// `%` with two hexadecimal digits behind it is the byte of that value, and
/// any other character is itself.
pub open spec fn percent_decoded(text: Seq<char>) -> Seq<u8>
    decreases text.len(),
{
    if text.len() == 0 {
        Seq::<u8>::empty()
    } else if text[0] == '%' && text.len() >= 3 && hex_value(text[1]) is Some && hex_value(
        text[2],
    ) is Some {
        seq![(hex_value(text[1])->Some_0 * 16 + hex_value(text[2])->Some_0) as u8]
            + percent_decoded(text.skip(3))
    } else {
        seq![text[0] as u32 as u8] + percent_decoded(text.skip(1))
    }
}

/// A path segment loses nothing: decoding gives the bytes back.
pub proof fn lemma_segment_round_trip(bytes: Seq<u8>)
    ensures
        percent_decoded(segment_encoded(bytes)) == bytes,
    decreases bytes.len(),
{
    if bytes.len() == 0 {
        assert(percent_decoded(segment_encoded(bytes)) =~= bytes);
    } else {
        let b = bytes[0];
        let rest = bytes.drop_first();
        assert(bytes =~= seq![b] + rest);
        lemma_segment_encoded_front(b, rest);
        lemma_segment_round_trip(rest);
        let text = segment_encoded(bytes);
        let first = segment_encoded_byte(b);
        assert(text == first + segment_encoded(rest));
        if segment_plain(b) {
            assert(text[0] == first[0]);
            assert(text.skip(1) =~= segment_encoded(rest));
            assert((b as char) as u32 as u8 == b);
        } else {
            assert(text[0] == first[0] && text[1] == first[1] && text[2] == first[2]);
            assert(text.skip(3) =~= segment_encoded(rest));
            assert(hex_value(hex_upper(b / 16)) == Some((b / 16) as u8));
            assert(hex_value(hex_upper(b % 16)) == Some((b % 16) as u8));
        }
        assert(percent_decoded(text) =~= seq![b] + rest);
    }
}

} // verus!
