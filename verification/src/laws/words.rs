//! Texts: their order, their parts, and the numbers in them.

use vstd::prelude::*;
use crate::text;

verus! {

// ---------------------------------------------------------------------------
// Order
// ---------------------------------------------------------------------------

/// The first difference decides the order of byte strings; where one is the beginning of the other,
/// it comes first.
proof fn lemma_bytes_order(x: Seq<u8>, y: Seq<u8>, k: int)
    requires
        0 <= k <= x.len(),
        k <= y.len(),
        forall|i: int| 0 <= i < k ==> x[i] == y[i],
    ensures
        k < x.len() && k < y.len() && x[k] < y[k] ==> text::bytes_le(x, y) && !text::bytes_le(y, x),
        k == x.len() ==> text::bytes_le(x, y),
        k == x.len() && k < y.len() ==> !text::bytes_le(y, x),
    decreases k,
{
    if k > 0 {
        assert(x[0] == y[0]);
        let a = x.drop_first();
        let b = y.drop_first();
        assert forall|i: int| 0 <= i < k - 1 implies a[i] == b[i] by {
            assert(x[i + 1] == y[i + 1]);
        }
        lemma_bytes_order(a, b, k - 1);
    }
}

/// Texts are ordered by their bytes: at the first difference the smaller byte comes first, whatever
/// follows, and a text comes before one that goes on where it ends.
pub proof fn law_order_by_bytes(a: Seq<char>, b: Seq<char>, k: int)
    requires
        0 <= k <= vstd::utf8::encode_utf8(a).len(),
        k <= vstd::utf8::encode_utf8(b).len(),
        vstd::utf8::encode_utf8(a).take(k) == vstd::utf8::encode_utf8(b).take(k),
    ensures
        ({
            let x = vstd::utf8::encode_utf8(a);
            let y = vstd::utf8::encode_utf8(b);
            &&& k < x.len() && k < y.len() && x[k] < y[k] ==> text::text_le(a, b) && !text::text_le(b, a)
            &&& k == x.len() ==> text::text_le(a, b)
            &&& k == x.len() && k < y.len() ==> !text::text_le(b, a)
        }),
{
    let x = vstd::utf8::encode_utf8(a);
    let y = vstd::utf8::encode_utf8(b);
    assert forall|i: int| 0 <= i < k implies x[i] == y[i] by {
        assert(x.take(k)[i] == y.take(k)[i]);
    }
    lemma_bytes_order(x, y, k);
}

/// Any two texts can be compared, and they come at the same place only where they are the same; the
/// order carries on from one pair to the next.
pub proof fn law_order_of_texts(a: Seq<char>, b: Seq<char>, c: Seq<char>)
    ensures
        text::text_le(a, b) || text::text_le(b, a),
        text::text_le(a, b) && text::text_le(b, a) <==> a == b,
        text::text_le(a, b) && text::text_le(b, c) ==> text::text_le(a, c),
{
    let x = vstd::utf8::encode_utf8(a);
    let y = vstd::utf8::encode_utf8(b);
    let z = vstd::utf8::encode_utf8(c);
    text::lemma_bytes_le_total(x, y);
    text::lemma_bytes_le_total(x, x);
    if text::text_le(a, b) && text::text_le(b, a) {
        text::lemma_text_le_antisym(a, b);
    }
    if text::text_le(a, b) && text::text_le(b, c) {
        text::lemma_bytes_le_trans(x, y, z);
    }
}

// ---------------------------------------------------------------------------
// Numbers
// ---------------------------------------------------------------------------

/// Decimal: one digit for each number below ten, and one more at the end for ten times as much. A
/// negative number has a minus sign before it.
pub proof fn law_decimal(n: nat, d: nat)
    requires
        d < 10,
    ensures
        text::dec(d) == seq![(48 + d) as char],
        n > 0 ==> text::dec(10 * n + d) == text::dec(n).push((48 + d) as char),
        text::dec_int(n as int) == text::dec(n),
        n > 0 ==> text::dec_int(-(n as int)) == seq!['-'] + text::dec(n),
{
    assert((10 * n + d) / 10 == n);
    assert((10 * n + d) % 10 == d);
}

/// Reading a number: a digit more at the end is ten times as much and the digit; what is no digit
/// makes it none; a plus sign before it changes nothing, and a minus sign negates it.
pub proof fn law_reading_numbers(s: Seq<char>, c: char)
    requires
        s.len() > 0,
    ensures
        text::parse_nat(Seq::empty()) is None,
        text::parse_nat(seq!['+']) is None,
        text::parse_int(seq!['-']) is None,
        '0' <= c <= '9' ==> text::parse_nat(seq![c]) == Some((c as u32 - 48) as nat),
        !('0' <= c <= '9') ==> text::parse_nat(seq![c]) is None,
        s != seq!['+'] ==> text::parse_nat(s.push(c)) == if '0' <= c <= '9' && text::parse_nat(s) is Some {
            Some((10 * text::parse_nat(s)->0 + (c as u32 - 48)) as nat)
        } else {
            None
        },
        '0' <= s[0] <= '9' ==> text::parse_nat(seq!['+'] + s) == text::parse_nat(s),
        '0' <= s[0] <= '9' ==> text::parse_int(s) == (match text::parse_nat(s) {
            Some(v) => Some(v as int),
            None => None,
        }),
        '0' <= s[0] <= '9' ==> text::parse_int(seq!['-'] + s) == (match text::parse_nat(s) {
            Some(v) => Some(-(v as int)),
            None => None,
        }),
{
    let one = seq![c];
    assert(one.drop_last() =~= Seq::<char>::empty());
    assert(text::digits_value(one.drop_last()) == Some(0nat));
    assert(seq!['+'].drop_first() =~= Seq::<char>::empty());
    assert(seq!['-'].drop_first() =~= Seq::<char>::empty());
    if c == '+' {
        assert(one.drop_first() =~= Seq::<char>::empty());
    }
    let t = s.push(c);
    assert(t[0] == s[0]);
    assert(t.drop_last() =~= s);
    if s[0] == '+' {
        assert(t.drop_first() =~= s.drop_first().push(c));
        assert(t.drop_first().drop_last() =~= s.drop_first());
        if s.drop_first().len() == 0 {
            assert(s =~= seq!['+']);
        }
    }
    assert((seq!['+'] + s).drop_first() =~= s);
    assert((seq!['-'] + s).drop_first() =~= s);
    assert((seq!['+'] + s)[0] == '+');
    assert((seq!['-'] + s)[0] == '-');
}

// ---------------------------------------------------------------------------
// Parts
// ---------------------------------------------------------------------------

/// Whether the character is white space in Unicode.
pub open spec fn white(c: char) -> bool {
    let n = c as u32;
    n == 0x20 || 9 <= n <= 13 || n == 0x85 || n == 0xa0 || n == 0x1680 || 0x2000 <= n <= 0x200a || n
        == 0x2028 || n == 0x2029 || n == 0x202f || n == 0x205f || n == 0x3000
}

/// What counts as white space when a text is trimmed.
proof fn lemma_white(c: char)
    ensures
        text::is_space(c) == white(c),
{
    if white(c) {
        let n = c as u32;
        if n == 0x20 {
            assert(c == ' ');
        } else if n == 0x85 {
            assert(c == '\u{85}');
        } else if n == 0xa0 {
            assert(c == '\u{a0}');
        } else if n == 0x1680 {
            assert(c == '\u{1680}');
        } else if n == 0x2028 {
            assert(c == '\u{2028}');
        } else if n == 0x2029 {
            assert(c == '\u{2029}');
        } else if n == 0x202f {
            assert(c == '\u{202f}');
        } else if n == 0x205f {
            assert(c == '\u{205f}');
        } else if n == 0x3000 {
            assert(c == '\u{3000}');
        }
    }
}

/// A text without its leading white space begins where the white space ends.
proof fn lemma_trim_start(s: Seq<char>) -> (i: int)
    ensures
        0 <= i <= s.len(),
        text::trim_start(s) == s.subrange(i, s.len() as int),
        forall|k: int| 0 <= k < i ==> white(#[trigger] s[k]),
        i < s.len() ==> !white(s[i]),
    decreases s.len(),
{
    if s.len() > 0 {
        lemma_white(s[0]);
    }
    if s.len() > 0 && white(s[0]) {
        let t = s.drop_first();
        let j = lemma_trim_start(t);
        assert forall|k: int| 0 <= k < j + 1 implies white(#[trigger] s[k]) by {
            if k > 0 {
                assert(s[k] == t[k - 1]);
            }
        }
        assert(t.subrange(j, t.len() as int) =~= s.subrange(j + 1, s.len() as int));
        if j + 1 < s.len() {
            assert(t[j] == s[j + 1]);
        }
        j + 1
    } else {
        assert(s.subrange(0, s.len() as int) =~= s);
        0
    }
}

/// A text without its trailing white space ends where the white space begins.
proof fn lemma_trim_end(s: Seq<char>) -> (j: int)
    ensures
        0 <= j <= s.len(),
        text::trim_end(s) == s.subrange(0, j),
        forall|k: int| j <= k < s.len() ==> white(#[trigger] s[k]),
        j > 0 ==> !white(s[j - 1]),
    decreases s.len(),
{
    if s.len() > 0 {
        lemma_white(s.last());
    }
    if s.len() > 0 && white(s.last()) {
        let t = s.drop_last();
        let j = lemma_trim_end(t);
        assert forall|k: int| j <= k < s.len() implies white(#[trigger] s[k]) by {
            if k < t.len() {
                assert(s[k] == t[k]);
            }
        }
        assert(t.subrange(0, j) =~= s.subrange(0, j));
        j
    } else {
        assert(s.subrange(0, s.len() as int) =~= s);
        s.len() as int
    }
}

/// Trimming takes away white space at both ends, all of it and nothing else.
pub proof fn law_trimming(s: Seq<char>)
    ensures
        exists|i: int, j: int|
            0 <= i <= j <= s.len() && text::trim(s) == #[trigger] s.subrange(i, j) && (forall|k: int|
                0 <= k < s.len() && !(i <= k < j) ==> white(#[trigger] s[k])) && (i < j ==> !white(
                s[i],
            ) && !white(s[j - 1])),
{
    let i = lemma_trim_start(s);
    let t = s.subrange(i, s.len() as int);
    let j = lemma_trim_end(t);
    assert(t.subrange(0, j) =~= s.subrange(i, i + j));
    assert forall|k: int| 0 <= k < s.len() && !(i <= k < i + j) implies white(#[trigger] s[k]) by {
        if k >= i {
            assert(t[k - i] == s[k]);
        }
    }
    if j > 0 {
        assert(t[j - 1] == s[i + j - 1]);
    }
}

/// A text is contained just where it stands between two others, and is stripped just where it stands
/// at the beginning, all of it and nothing else.
pub proof fn law_searching(a: Seq<char>, n: Seq<char>, b: Seq<char>, s: Seq<char>)
    ensures
        text::contains(a + n + b, n),
        text::contains(s, n) ==> exists|x: Seq<char>, y: Seq<char>| s == #[trigger] (x + n + y),
        text::starts_with(s, n) <==> exists|y: Seq<char>| s == #[trigger] (n + y),
        text::strip_prefix(n + b, n) == Some(b),
        text::strip_prefix(s, n) matches Some(r) ==> s == n + r,
        !text::starts_with(s, n) ==> text::strip_prefix(s, n) is None,
{
    let whole = a + n + b;
    let i = a.len() as int;
    assert(whole.subrange(i, i + n.len()) =~= n);
    if text::contains(s, n) {
        let k = choose|k: int|
            0 <= k <= s.len() - n.len() && #[trigger] s.subrange(k, k + n.len()) == n;
        let x = s.subrange(0, k);
        let y = s.subrange(k + n.len(), s.len() as int);
        assert forall|p: int| 0 <= p < s.len() implies s[p] == (x + n + y)[p] by {
            if k <= p < k + n.len() {
                assert(s.subrange(k, k + n.len())[p - k] == n[p - k]);
            }
        }
        assert(s =~= x + n + y);
    }
    if text::starts_with(s, n) {
        let y = s.subrange(n.len() as int, s.len() as int);
        assert forall|p: int| 0 <= p < s.len() implies s[p] == (n + y)[p] by {
            if p < n.len() {
                assert(s.subrange(0, n.len() as int)[p] == n[p]);
            }
        }
        assert(s =~= n + y);
    }
    if exists|y: Seq<char>| s == #[trigger] (n + y) {
        let y = choose|y: Seq<char>| s == #[trigger] (n + y);
        assert(s.subrange(0, n.len() as int) =~= n);
    }
    assert((n + b).subrange(0, n.len() as int) =~= n);
    assert((n + b).subrange(n.len() as int, (n + b).len() as int) =~= b);
}

/// No piece of a split text has the separator in it.
pub proof fn law_pieces_have_no_separator(s: Seq<char>, sep: char)
    ensures
        split_has_no(s, sep),
    decreases s.len(),
{
    let pieces = text::split(s, sep);
    if s.len() == 0 {
        assert(pieces =~= seq![Seq::<char>::empty()]);
    } else {
        let t = s.drop_last();
        law_pieces_have_no_separator(t, sep);
        text::lemma_split_nonempty(t, sep);
        let before = text::split(t, sep);
        assert forall|i: int| 0 <= i < pieces.len() implies !(#[trigger] pieces[i]).contains(sep) by {
            if i < before.len() - 1 {
                assert(pieces[i] == before[i]);
                assert(!before[i].contains(sep));
            } else if s.last() == sep {
                if i < before.len() {
                    assert(!before[i].contains(sep));
                }
            } else {
                assert(!before[before.len() - 1].contains(sep));
                let last = before.last();
                let p = last.push(s.last());
                assert(pieces[i] == p);
                if p.contains(sep) {
                    let k = choose|k: int| 0 <= k < p.len() && p[k] == sep;
                    assert(last[k] == sep);
                }
            }
        }
    }
}

/// Whether no piece has the separator in it.
pub open spec fn split_has_no(s: Seq<char>, sep: char) -> bool {
    forall|i: int|
        0 <= i < text::split(s, sep).len() ==> !(#[trigger] text::split(s, sep)[i]).contains(sep)
}

/// Joining: nothing of nothing, one part as it is, and each further part behind a separator.
pub proof fn law_joining(parts: Seq<Seq<char>>, last: Seq<char>, sep: Seq<char>)
    ensures
        text::join(Seq::empty(), sep) == Seq::<char>::empty(),
        text::join(seq![last], sep) == last,
        parts.len() > 0 ==> text::join(parts.push(last), sep) == text::join(parts, sep) + sep + last,
        text::concat(Seq::empty()) == Seq::<char>::empty(),
        text::concat(parts.push(last)) == text::concat(parts) + last,
{
    assert(parts.push(last).drop_last() =~= parts);
}

/// The last separator parts a text: before it and behind it, which has none; where there is none, the
/// text is not parted.
pub proof fn law_parting_at_the_last(a: Seq<char>, b: Seq<char>, c: char)
    requires
        !b.contains(c),
    ensures
        text::rsplit_once(a.push(c) + b, c) == Some((a, b)),
        text::rsplit_once(b, c) is None,
{
    let s = a.push(c) + b;
    text::lemma_last_index(s, c);
    text::lemma_last_index(b, c);
    let l = text::last_index(s, c);
    assert(s[a.len() as int] == c);
    assert(s.contains(c));
    if l > a.len() {
        assert(b[l - a.len() - 1] == c);
    }
    assert(s.subrange(0, l) =~= a);
    assert(s.subrange(l + 1, s.len() as int) =~= b);
}

/// A text is filled up to the width and never cut; and where only so many characters are wanted, they
/// are the first ones.
pub proof fn law_widths(s: Seq<char>, fill: char, width: nat)
    ensures
        ({
            let l = text::pad_left(s, fill, width);
            let r = text::pad_right(s, width);
            let t = text::take_chars(s, width);
            &&& l.len() == if s.len() < width { width } else { s.len() }
            &&& l.skip(l.len() - s.len()) == s
            &&& forall|i: int| 0 <= i < l.len() - s.len() ==> #[trigger] l[i] == fill
            &&& r.len() == l.len()
            &&& r.take(s.len() as int) == s
            &&& forall|i: int| s.len() <= i < r.len() ==> #[trigger] r[i] == ' '
            &&& t.len() == if s.len() < width { s.len() } else { width }
            &&& t == s.take(t.len() as int)
        }),
{
    let l = text::pad_left(s, fill, width);
    let r = text::pad_right(s, width);
    let t = text::take_chars(s, width);
    assert(l.skip(l.len() - s.len()) =~= s);
    assert(r.take(s.len() as int) =~= s);
    assert(t =~= s.take(t.len() as int));
}

/// Small letters: a capital of ASCII becomes the letter that stands 32 places behind it, and every
/// other character stays.
pub proof fn law_small_letters(s: Seq<char>, i: int)
    requires
        0 <= i < s.len(),
    ensures
        text::lower(s).len() == s.len(),
        65 <= s[i] as u32 <= 90 ==> text::lower(s)[i] as u32 == s[i] as u32 + 32,
        !(65 <= s[i] as u32 <= 90) ==> text::lower(s)[i] == s[i],
{
}

/// Lines: a line feed ends one, a carriage return before it does not belong to it, and what comes
/// behind the last line feed is a line of its own.
pub proof fn law_lines(a: Seq<char>, l: Seq<char>)
    requires
        a.len() == 0 || a.last() == '\n',
        !l.contains('\n'),
    ensures
        text::lines(Seq::empty()) == Seq::<Seq<char>>::empty(),
        l.len() > 0 ==> text::lines(a + l) == text::lines(a).push(l),
        text::lines((a + l).push('\n')) == text::lines(a).push(
            if l.len() > 0 && l.last() == '\r' {
                l.take(l.len() - 1)
            } else {
                l
            },
        ),
{
    let e = Seq::<char>::empty();
    text::lemma_split_one_piece(e, '\n');
    assert(text::lines(e) =~= Seq::<Seq<char>>::empty());
    let cut = if l.len() > 0 && l.last() == '\r' {
        l.take(l.len() - 1)
    } else {
        l
    };
    assert(text::without_cr(l) =~= cut);
    let s = a + l;
    let ended = s.push('\n');
    assert(ended.drop_last() =~= s);
    assert(text::split(ended, '\n') == text::split(s, '\n').push(Seq::empty()));
    if a.len() == 0 {
        assert(s =~= l);
        text::lemma_split_one_piece(l, '\n');
        assert(text::lines(a) =~= Seq::<Seq<char>>::empty()) by {
            assert(a =~= e);
        }
        if l.len() > 0 {
            assert(text::lines(s) =~= seq![l]);
            assert(text::lines(a).push(l) =~= seq![l]);
        }
        assert(text::lines(ended) =~= text::lines(a).push(cut));
    } else {
        let b = a.drop_last();
        assert(a =~= b.push('\n'));
        text::lemma_split_last_piece(b, l, '\n');
        text::lemma_split_last_piece(b, e, '\n');
        text::lemma_split_nonempty(b, '\n');
        assert(b.push('\n') + e =~= a);
        let pieces = text::split(b, '\n');
        assert(text::split(a, '\n') == pieces.push(e));
        assert(text::split(s, '\n') == pieces.push(l));
        assert(text::lines(a) =~= Seq::new(pieces.len(), |i: int| text::without_cr(pieces[i])));
        if l.len() > 0 {
            assert(text::lines(s) =~= text::lines(a).push(l));
        }
        assert(text::lines(ended) =~= text::lines(a).push(cut));
    }
}

/// The last ones of a list are its end, as many as are wanted or all.
pub proof fn law_last_ones<T>(s: Seq<T>, max: nat)
    ensures
        text::last_of(s, max).len() == if s.len() < max { s.len() } else { max },
        text::last_of(s, max) == s.skip(s.len() - text::last_of(s, max).len()),
{
    assert(text::last_of(s, max) =~= s.skip(s.len() - text::last_of(s, max).len()));
}

} // verus!
