//! The persisted form of the transition store.
//!
//! The store is text: one line holding the weight ceiling, then one line
//! per edge.  Identifiers are length-prefixed, so they may contain any
//! character at all:
//!
//! ```text
//! <ceiling> '\n'
//! <len(from)> ' ' <from> <len(to)> ' ' <to> <weight> '\n'   (per edge)
//! ```
//!
//! Numbers are plain decimal.  Decoding rejects, wholesale, any text that
//! does not parse, any weight above the recorded ceiling, and any
//! duplicate `(from, to)` pair; decoding what `encode` wrote restores the
//! store exactly.

use vstd::prelude::*;
use vstd::string::*;

use crate::chain::{Association, Chain, EdgeView, edges_unique, str_eq};
use crate::error::StorageError;

verus! {

/// Whether `c` is a decimal digit.
pub open spec fn is_digit(c: char) -> bool {
    48 <= c as u32 <= 57
}

/// The value of a digit character; zero for anything else.
pub open spec fn digit_val(c: char) -> nat {
    if is_digit(c) {
        (c as u32 - 48) as nat
    } else {
        0
    }
}

/// The digit character for a value below ten.
pub open spec fn digit_char(d: int) -> char {
    if d == 0 {
        '0'
    } else if d == 1 {
        '1'
    } else if d == 2 {
        '2'
    } else if d == 3 {
        '3'
    } else if d == 4 {
        '4'
    } else if d == 5 {
        '5'
    } else if d == 6 {
        '6'
    } else if d == 7 {
        '7'
    } else if d == 8 {
        '8'
    } else {
        '9'
    }
}

/// The decimal digits of `n`, most significant first.
pub open spec fn dec_digits(n: nat) -> Seq<char>
    decreases n,
{
    if n < 10 {
        seq![digit_char(n as int)]
    } else {
        dec_digits(n / 10) + seq![digit_char((n % 10) as int)]
    }
}

/// The number a digit sequence denotes.
pub open spec fn digits_val(s: Seq<char>) -> nat
    decreases s.len(),
{
    if s.len() == 0 {
        0
    } else {
        digits_val(s.drop_last()) * 10 + digit_val(s.last())
    }
}

/// The end of the run of digits starting at `pos`.
pub open spec fn scan_digits(s: Seq<char>, pos: int) -> int
    decreases s.len() - pos,
{
    if pos < s.len() && is_digit(s[pos]) {
        scan_digits(s, pos + 1)
    } else {
        pos
    }
}

/// The number starting at `pos`: its value and the position after its
/// digits.  Nothing when no digit stands at `pos` or the value does not
/// fit the widest machine word.
pub open spec fn parse_num(s: Seq<char>, pos: int) -> Option<(nat, int)> {
    let end = scan_digits(s, pos);
    if end == pos {
        None
    } else {
        let v = digits_val(s.subrange(pos, end));
        if v > u64::MAX as nat {
            None
        } else {
            Some((v, end))
        }
    }
}

/// One edge record starting at `pos`: the edge and the position after
/// its terminating newline.  Weights above `wmax` are refused.
pub open spec fn parse_record(s: Seq<char>, pos: int, wmax: u32) -> Option<(EdgeView, int)> {
    match parse_num(s, pos) {
        None => None,
        Some((n1, p1)) => {
            if !(p1 < s.len() && s[p1] == ' ') {
                None
            } else if n1 > s.len() - (p1 + 1) {
                None
            } else {
                let from = s.subrange(p1 + 1, p1 + 1 + n1);
                let p3 = p1 + 1 + n1;
                match parse_num(s, p3) {
                    None => None,
                    Some((n2, p4)) => {
                        if !(p4 < s.len() && s[p4] == ' ') {
                            None
                        } else if n2 > s.len() - (p4 + 1) {
                            None
                        } else {
                            let to = s.subrange(p4 + 1, p4 + 1 + n2);
                            let p6 = p4 + 1 + n2;
                            match parse_num(s, p6) {
                                None => None,
                                Some((w, p7)) => {
                                    if !(p7 < s.len() && s[p7] == '\n') {
                                        None
                                    } else if w > wmax as nat {
                                        None
                                    } else {
                                        Some(((from, to, w as u32), p7 + 1))
                                    }
                                },
                            }
                        }
                    },
                }
            }
        },
    }
}

/// All edge records from `pos` to the end of the text.
pub open spec fn parse_records(s: Seq<char>, pos: int, wmax: u32) -> Option<Seq<EdgeView>>
    decreases s.len() - pos,
{
    if pos >= s.len() {
        Some(Seq::empty())
    } else {
        match parse_record(s, pos, wmax) {
            None => None,
            Some((e, p)) => {
                if pos < p <= s.len() {
                    match parse_records(s, p, wmax) {
                        None => None,
                        Some(rest) => Some(seq![e] + rest),
                    }
                } else {
                    None
                }
            },
        }
    }
}

/// What a whole persisted text means: the weight ceiling and the edge
/// list, or nothing when the text is malformed.
pub open spec fn decode_chain(s: Seq<char>) -> Option<(u32, Seq<EdgeView>)> {
    match parse_num(s, 0) {
        None => None,
        Some((v, p)) => {
            if v > u32::MAX as nat {
                None
            } else if !(p < s.len() && s[p] == '\n') {
                None
            } else {
                match parse_records(s, p + 1, v as u32) {
                    None => None,
                    Some(es) => {
                        if edges_unique(es) {
                            Some((v as u32, es))
                        } else {
                            None
                        }
                    },
                }
            }
        },
    }
}

/// A length-prefixed identifier: its character count, a space, then the
/// characters themselves.
pub open spec fn encode_str(x: Seq<char>) -> Seq<char> {
    dec_digits(x.len()) + seq![' '] + x
}

/// The persisted line of one edge.
pub open spec fn encode_edge(e: EdgeView) -> Seq<char> {
    encode_str(e.0) + encode_str(e.1) + dec_digits(e.2 as nat) + seq!['\n']
}

/// The persisted lines of an edge list, in order.
pub open spec fn encode_edges(es: Seq<EdgeView>) -> Seq<char>
    decreases es.len(),
{
    if es.len() == 0 {
        Seq::empty()
    } else {
        encode_edge(es[0]) + encode_edges(es.drop_first())
    }
}

/// The whole persisted text of a store.
pub open spec fn encode_chain(weight_max: u32, es: Seq<EdgeView>) -> Seq<char> {
    dec_digits(weight_max as nat) + seq!['\n'] + encode_edges(es)
}

/// Digit characters mean their digit.
proof fn lemma_digit_char_val(d: int)
    requires
        0 <= d < 10,
    ensures
        is_digit(digit_char(d)),
        digit_val(digit_char(d)) == d,
{
}

/// The decimal digits of `n` are digits, there is at least one, and
/// together they denote `n`.
pub proof fn lemma_dec_digits(n: nat)
    ensures
        dec_digits(n).len() >= 1,
        forall|i: int| 0 <= i < dec_digits(n).len() ==> is_digit(#[trigger] dec_digits(n)[i]),
        digits_val(dec_digits(n)) == n,
    decreases n,
{
    if n < 10 {
        lemma_digit_char_val(n as int);
        assert(dec_digits(n) =~= seq![digit_char(n as int)]);
        assert(dec_digits(n).drop_last() =~= Seq::<char>::empty());
        assert(dec_digits(n).last() == digit_char(n as int));
        assert(digits_val(Seq::<char>::empty()) == 0);
        assert(digits_val(dec_digits(n)) == digits_val(dec_digits(n).drop_last()) * 10 + digit_val(
            dec_digits(n).last(),
        ));
    } else {
        lemma_dec_digits(n / 10);
        lemma_digit_char_val((n % 10) as int);
        let w = dec_digits(n / 10);
        let whole = w + seq![digit_char((n % 10) as int)];
        assert(whole.drop_last() =~= w);
        assert(whole.last() == digit_char((n % 10) as int));
        assert(digits_val(whole) == digits_val(w) * 10 + (n % 10));
        assert(forall|i: int|
            0 <= i < whole.len() ==> is_digit(#[trigger] whole[i])) by {
            assert(forall|i: int| 0 <= i < w.len() ==> whole[i] == w[i]);
        }
    }
}

/// Appends one digit character to `out`.
fn push_digit(out: &mut String, d: u8)
    requires
        d < 10,
    ensures
        final(out)@ == old(out)@ + seq![digit_char(d as int)],
{
    let digits: &str = "0123456789";
    proof {
        reveal_strlit("0123456789");
        assert(digits@.len() == 10);
        assert(digits@[0] == '0');
        assert(digits@[1] == '1');
        assert(digits@[2] == '2');
        assert(digits@[3] == '3');
        assert(digits@[4] == '4');
        assert(digits@[5] == '5');
        assert(digits@[6] == '6');
        assert(digits@[7] == '7');
        assert(digits@[8] == '8');
        assert(digits@[9] == '9');
    }
    let piece = digits.substring_char(d as usize, d as usize + 1);
    proof {
        assert(piece@ =~= seq![digit_char(d as int)]);
    }
    out.append(piece);
    proof {
        assert(out@ =~= old(out)@ + seq![digit_char(d as int)]);
    }
}

/// Appends the decimal digits of `n` to `out`.
fn push_number(out: &mut String, n: u64)
    ensures
        final(out)@ == old(out)@ + dec_digits(n as nat),
    decreases n,
{
    if n >= 10 {
        push_number(out, n / 10);
    }
    push_digit(out, (n % 10) as u8);
    proof {
        if n < 10 {
            assert(dec_digits(n as nat) =~= seq![digit_char((n % 10) as int)]);
            assert(out@ =~= old(out)@ + dec_digits(n as nat));
        } else {
            assert((n / 10) as nat == (n as nat) / 10);
            assert((n % 10) as nat == (n as nat) % 10);
            assert(dec_digits(n as nat) == dec_digits((n as nat) / 10) + seq![
                digit_char(((n as nat) % 10) as int),
            ]);
            assert(out@ =~= old(out)@ + dec_digits(n as nat));
        }
    }
}

/// Adding an edge at the end appends its line to the text.
proof fn lemma_encode_edges_push(es: Seq<EdgeView>, e: EdgeView)
    ensures
        encode_edges(es.push(e)) == encode_edges(es) + encode_edge(e),
    decreases es.len(),
{
    let p = es.push(e);
    assert(p[0] == if es.len() == 0 { e } else { es[0] });
    if es.len() == 0 {
        assert(p.drop_first() =~= Seq::<EdgeView>::empty());
        assert(encode_edges(p) == encode_edge(e) + encode_edges(Seq::empty()));
        assert(encode_edge(e) + Seq::<char>::empty() =~= encode_edge(e));
        assert(encode_edges(es) + encode_edge(e) =~= encode_edge(e));
    } else {
        assert(p.drop_first() =~= es.drop_first().push(e));
        lemma_encode_edges_push(es.drop_first(), e);
        assert(encode_edge(es[0]) + (encode_edges(es.drop_first()) + encode_edge(e)) =~= (
        encode_edge(es[0]) + encode_edges(es.drop_first())) + encode_edge(e));
    }
}

/// A piece of a matching subrange matches piecewise.
proof fn lemma_subrange_of_eq(s: Seq<char>, pos: int, ee: Seq<char>, a: int, b: int)
    requires
        0 <= pos,
        pos + ee.len() <= s.len(),
        s.subrange(pos, pos + ee.len()) == ee,
        0 <= a <= b <= ee.len(),
    ensures
        s.subrange(pos + a, pos + b) == ee.subrange(a, b),
{
    assert(s.subrange(pos + a, pos + b) =~= ee.subrange(a, b)) by {
        assert forall|k: int| 0 <= k < b - a implies s.subrange(pos + a, pos + b)[k]
            == ee.subrange(a, b)[k] by {
            assert(s[pos + a + k] == s.subrange(pos, pos + ee.len())[a + k]);
        }
    }
}

/// A run of digits closed by a non-digit (or the end) scans to exactly
/// its own end.
proof fn lemma_scan_exact(s: Seq<char>, pos: int, end: int)
    requires
        0 <= pos <= end <= s.len(),
        forall|j: int| pos <= j < end ==> is_digit(s[j]),
        end == s.len() || !is_digit(s[end]),
    ensures
        scan_digits(s, pos) == end,
    decreases end - pos,
{
    if pos < end {
        lemma_scan_exact(s, pos + 1, end);
    }
}

/// A number's own digits, closed by a non-digit, parse back to it.
proof fn lemma_parse_num_at(s: Seq<char>, pos: int, m: nat)
    requires
        0 <= pos,
        pos + dec_digits(m).len() <= s.len(),
        s.subrange(pos, pos + dec_digits(m).len() as int) == dec_digits(m),
        pos + dec_digits(m).len() == s.len() || !is_digit(s[pos + dec_digits(m).len()]),
        m <= u64::MAX,
    ensures
        parse_num(s, pos) == Some((m, pos + dec_digits(m).len() as int)),
{
    let d = dec_digits(m);
    lemma_dec_digits(m);
    let end = pos + d.len() as int;
    assert forall|j: int| pos <= j < end implies is_digit(s[j]) by {
        assert(s[j] == s.subrange(pos, end)[j - pos]);
        assert(s.subrange(pos, end)[j - pos] == d[j - pos]);
    }
    lemma_scan_exact(s, pos, end);
    assert(digits_val(s.subrange(pos, end)) == m);
}

/// A length-prefixed identifier written by `encode_str` parses back:
/// the length, the space, then exactly its characters.
proof fn lemma_parse_str_at(s: Seq<char>, pos: int, x: Seq<char>)
    requires
        0 <= pos,
        x.len() <= u64::MAX,
        pos + encode_str(x).len() <= s.len(),
        s.subrange(pos, pos + encode_str(x).len() as int) == encode_str(x),
    ensures
        ({
            let p1 = pos + dec_digits(x.len()).len() as int;
            &&& parse_num(s, pos) == Some((x.len(), p1))
            &&& p1 < s.len() && s[p1] == ' '
            &&& p1 + 1 + x.len() <= s.len()
            &&& s.subrange(p1 + 1, p1 + 1 + x.len() as int) == x
            &&& p1 + 1 + x.len() == pos + encode_str(x).len()
        }),
{
    let d = dec_digits(x.len());
    let enc = encode_str(x);
    lemma_dec_digits(x.len());
    let p1 = pos + d.len() as int;
    assert(enc.len() == d.len() + 1 + x.len());
    assert(enc.subrange(0, d.len() as int) =~= d);
    lemma_subrange_of_eq(s, pos, enc, 0, d.len() as int);
    assert(s[p1] == s.subrange(pos, pos + enc.len() as int)[d.len() as int]);
    assert(s[p1] == ' ');
    assert(!is_digit(' '));
    lemma_parse_num_at(s, pos, x.len());
    assert(enc.subrange(d.len() + 1 as int, enc.len() as int) =~= x);
    lemma_subrange_of_eq(s, pos, enc, d.len() + 1 as int, enc.len() as int);
}

/// An edge line written by `encode_edge` parses back to exactly that
/// edge, consuming exactly the line.
proof fn lemma_parse_record_at(s: Seq<char>, pos: int, e: EdgeView, wmax: u32)
    requires
        0 <= pos,
        pos + encode_edge(e).len() <= s.len(),
        s.subrange(pos, pos + encode_edge(e).len() as int) == encode_edge(e),
        e.0.len() <= u64::MAX,
        e.1.len() <= u64::MAX,
        e.2 <= wmax,
    ensures
        parse_record(s, pos, wmax) == Some((e, pos + encode_edge(e).len() as int)),
{
    let enc = encode_edge(e);
    let s0 = encode_str(e.0);
    let s1 = encode_str(e.1);
    let d2 = dec_digits(e.2 as nat);
    lemma_dec_digits(e.0.len());
    lemma_dec_digits(e.1.len());
    lemma_dec_digits(e.2 as nat);
    assert(enc.len() == s0.len() + s1.len() + d2.len() + 1);

    assert(enc.subrange(0, s0.len() as int) =~= s0);
    lemma_subrange_of_eq(s, pos, enc, 0, s0.len() as int);
    lemma_parse_str_at(s, pos, e.0);

    let q1 = pos + s0.len() as int;
    assert(enc.subrange(s0.len() as int, (s0.len() + s1.len()) as int) =~= s1);
    lemma_subrange_of_eq(s, pos, enc, s0.len() as int, (s0.len() + s1.len()) as int);
    lemma_parse_str_at(s, q1, e.1);

    let q2 = q1 + s1.len() as int;
    assert(enc.subrange((s0.len() + s1.len()) as int, (s0.len() + s1.len() + d2.len()) as int) =~= d2);
    lemma_subrange_of_eq(s, pos, enc, (s0.len() + s1.len()) as int, (s0.len() + s1.len() + d2.len()) as int);
    let q3 = q2 + d2.len() as int;
    assert(s[q3] == s.subrange(pos, pos + enc.len() as int)[(s0.len() + s1.len() + d2.len()) as int]);
    assert(s[q3] == '\n');
    assert(!is_digit('\n'));
    lemma_parse_num_at(s, q2, e.2 as nat);

    assert((e.2 as nat) <= wmax as nat);
    assert(((e.2 as nat) as u32) == e.2);
    assert(parse_record(s, pos, wmax) == Some((
        (
            s.subrange(pos + dec_digits(e.0.len()).len() + 1 as int, q1),
            s.subrange(q1 + dec_digits(e.1.len()).len() + 1 as int, q2),
            e.2,
        ),
        q3 + 1,
    )));
}

/// A whole edge list written by `encode_edges`, filling the text to its
/// end, parses back to exactly that list.
proof fn lemma_parse_records_at(s: Seq<char>, pos: int, es: Seq<EdgeView>, wmax: u32)
    requires
        0 <= pos <= s.len(),
        s.len() == pos + encode_edges(es).len(),
        s.subrange(pos, s.len() as int) == encode_edges(es),
        forall|i: int|
            0 <= i < es.len() ==> (#[trigger] es[i]).0.len() <= u64::MAX && es[i].1.len()
                <= u64::MAX && es[i].2 <= wmax,
    ensures
        parse_records(s, pos, wmax) == Some(es),
    decreases es.len(),
{
    if es.len() == 0 {
        assert(pos == s.len());
        assert(es =~= Seq::<EdgeView>::empty());
    } else {
        let e = es[0];
        let enc0 = encode_edge(e);
        let rest = es.drop_first();
        let ee = encode_edges(es);
        assert(ee == enc0 + encode_edges(rest));
        lemma_dec_digits(e.2 as nat);
        assert(enc0.len() >= 1);
        assert(ee.subrange(0, enc0.len() as int) =~= enc0);
        lemma_subrange_of_eq(s, pos, ee, 0, enc0.len() as int);
        lemma_parse_record_at(s, pos, e, wmax);
        let p2 = pos + enc0.len() as int;
        assert(ee.subrange(enc0.len() as int, ee.len() as int) =~= encode_edges(rest));
        lemma_subrange_of_eq(s, pos, ee, enc0.len() as int, ee.len() as int);
        assert(forall|i: int|
            0 <= i < rest.len() ==> #[trigger] rest[i] == es[i + 1]);
        lemma_parse_records_at(s, p2, rest, wmax);
        assert(seq![e] + rest =~= es);
    }
}

/// Persistence round-trip: the text `encode` writes for any store decodes
/// back to exactly the same weight ceiling and the same edge list, each
/// weight intact.
pub proof fn lemma_round_trip(weight_max: u32, es: Seq<EdgeView>)
    requires
        edges_unique(es),
        forall|i: int|
            0 <= i < es.len() ==> (#[trigger] es[i]).0.len() <= u64::MAX && es[i].1.len()
                <= u64::MAX && es[i].2 <= weight_max,
    ensures
        decode_chain(encode_chain(weight_max, es)) == Some((weight_max, es)),
{
    let s = encode_chain(weight_max, es);
    let d = dec_digits(weight_max as nat);
    lemma_dec_digits(weight_max as nat);
    assert(s.len() == d.len() + 1 + encode_edges(es).len());
    assert(s.subrange(0, d.len() as int) =~= d);
    assert(s[d.len() as int] == '\n');
    assert(!is_digit('\n'));
    lemma_parse_num_at(s, 0, weight_max as nat);
    let p = d.len() as int;
    assert(s.subrange(p + 1, s.len() as int) =~= encode_edges(es));
    lemma_parse_records_at(s, p + 1, es, weight_max);
    assert(((weight_max as nat) as u32) == weight_max);
}

/// The edge views of a list of associations.
pub open spec fn assoc_views(v: Seq<Association>) -> Seq<EdgeView> {
    v.map_values(|a: Association| a@)
}

/// Prepends already-parsed edges to the outcome of parsing the rest.
pub open spec fn opt_prepend(a: Seq<EdgeView>, o: Option<Seq<EdgeView>>) -> Option<
    Seq<EdgeView>,
> {
    match o {
        None => None,
        Some(r) => Some(a + r),
    }
}

/// The run of digits starting at `pos` stays inside the text, and every
/// character in it is a digit.
proof fn lemma_scan_all_digits(s: Seq<char>, pos: int)
    requires
        0 <= pos <= s.len(),
    ensures
        pos <= scan_digits(s, pos) <= s.len(),
        forall|j: int| pos <= j < scan_digits(s, pos) ==> is_digit(s[j]),
    decreases s.len() - pos,
{
    if pos < s.len() && is_digit(s[pos]) {
        lemma_scan_all_digits(s, pos + 1);
    }
}

/// Reads the end of the digit run starting at `pos`.
fn scan_end(s: &str, n: usize, pos: usize) -> (end: usize)
    requires
        n == s@.len(),
        pos <= n,
    ensures
        pos <= end <= n,
        end as int == scan_digits(s@, pos as int),
{
    let mut end: usize = pos;
    loop
        invariant
            n == s@.len(),
            pos <= end <= n,
            scan_digits(s@, pos as int) == scan_digits(s@, end as int),
        ensures
            pos <= end <= n,
            scan_digits(s@, pos as int) == scan_digits(s@, end as int),
            end == n || !is_digit(s@[end as int]),
        decreases n - end,
    {
        if end >= n {
            break ;
        }
        let c = s.get_char(end);
        if !(48 <= c as u32 && c as u32 <= 57) {
            break ;
        }
        end += 1;
    }
    proof {
        assert(scan_digits(s@, end as int) == end);
    }
    end
}

/// Reads the decimal number starting at `pos`.
fn read_number(s: &str, n: usize, pos: usize) -> (r: Option<(u64, usize)>)
    requires
        n == s@.len(),
        pos <= n,
    ensures
        match r {
            Some(vp) => parse_num(s@, pos as int) == Some(((vp.0 as nat), (vp.1 as int))) && pos
                < vp.1 <= n,
            None => parse_num(s@, pos as int) is None,
        },
{
    let end = scan_end(s, n, pos);
    if end == pos {
        return None;
    }
    proof {
        lemma_scan_all_digits(s@, pos as int);
    }
    let mut i: usize = pos;
    let mut acc: u64 = 0;
    let mut over: bool = false;
    while i < end
        invariant
            n == s@.len(),
            pos <= i <= end <= n,
            end as int == scan_digits(s@, pos as int),
            forall|j: int| pos <= j < end ==> is_digit(s@[j]),
            !over ==> acc as nat == digits_val(s@.subrange(pos as int, i as int)),
            over ==> digits_val(s@.subrange(pos as int, i as int)) > u64::MAX as nat,
        decreases end - i,
    {
        let c = s.get_char(i);
        proof {
            assert(is_digit(s@[i as int]));
        }
        let d: u64 = (c as u32 - 48) as u64;
        proof {
            assert(d as nat == digit_val(s@[i as int]));
            assert(s@.subrange(pos as int, i as int + 1).drop_last() =~= s@.subrange(
                pos as int,
                i as int,
            ));
            assert(s@.subrange(pos as int, i as int + 1).last() == s@[i as int]);
            assert(digits_val(s@.subrange(pos as int, i as int + 1)) == digits_val(
                s@.subrange(pos as int, i as int),
            ) * 10 + d);
        }
        if !over {
            let q = (u64::MAX - d) / 10;
            if acc > q {
                over = true;
                proof {
                    let m = (u64::MAX - d) as int;
                    assert(m == (m / 10) * 10 + m % 10 && 0 <= m % 10 < 10) by {
                        vstd::arithmetic::div_mod::lemma_fundamental_div_mod(m, 10);
                    }
                    assert(acc * 10 + d > u64::MAX);
                }
            } else {
                proof {
                    let m = (u64::MAX - d) as int;
                    assert(m == (m / 10) * 10 + m % 10 && 0 <= m % 10 < 10) by {
                        vstd::arithmetic::div_mod::lemma_fundamental_div_mod(m, 10);
                    }
                    assert(acc * 10 + d <= u64::MAX);
                }
                acc = acc * 10 + d;
            }
        }
        i += 1;
    }
    if over {
        proof {
            assert(s@.subrange(pos as int, i as int) =~= s@.subrange(pos as int, end as int));
        }
        return None;
    }
    proof {
        assert(s@.subrange(pos as int, i as int) =~= s@.subrange(pos as int, end as int));
    }
    Some((acc, end))
}

/// Reads one edge record starting at `pos`.
fn read_record(s: &str, n: usize, pos: usize, wmax: u32) -> (r: Option<(Association, usize)>)
    requires
        n == s@.len(),
        pos <= n,
    ensures
        match r {
            Some(ap) => parse_record(s@, pos as int, wmax) == Some((ap.0@, ap.1 as int)) && pos
                < ap.1 <= n && ap.0.weight <= wmax,
            None => parse_record(s@, pos as int, wmax) is None,
        },
{
    let (n1, p1) = match read_number(s, n, pos) {
        Some(x) => x,
        None => {
            return None;
        },
    };
    if p1 >= n {
        return None;
    }
    if s.get_char(p1) != ' ' {
        return None;
    }
    let p2 = p1 + 1;
    if n1 > (n - p2) as u64 {
        return None;
    }
    let n1u = n1 as usize;
    let from = s.substring_char(p2, p2 + n1u).to_owned();
    let p3 = p2 + n1u;
    let (n2, p4) = match read_number(s, n, p3) {
        Some(x) => x,
        None => {
            return None;
        },
    };
    if p4 >= n {
        return None;
    }
    if s.get_char(p4) != ' ' {
        return None;
    }
    let p5 = p4 + 1;
    if n2 > (n - p5) as u64 {
        return None;
    }
    let n2u = n2 as usize;
    let to = s.substring_char(p5, p5 + n2u).to_owned();
    let p6 = p5 + n2u;
    let (w, p7) = match read_number(s, n, p6) {
        Some(x) => x,
        None => {
            return None;
        },
    };
    if p7 >= n {
        return None;
    }
    if s.get_char(p7) != '\n' {
        return None;
    }
    if w > wmax as u64 {
        return None;
    }
    let a = Association { song: from, next: to, weight: w as u32 };
    proof {
        assert(a@ == (
            s@.subrange(p2 as int, p2 as int + n1 as int),
            s@.subrange(p5 as int, p5 as int + n2 as int),
            w as u32,
        ));
    }
    Some((a, p7 + 1))
}

/// Whether no two associations share their ordered pair.
fn edges_are_unique(v: &Vec<Association>) -> (r: bool)
    ensures
        r == edges_unique(assoc_views(v@)),
{
    let ghost es = assoc_views(v@);
    let n = v.len();
    let mut i: usize = 0;
    while i < n
        invariant
            n == v@.len(),
            i <= n,
            es == assoc_views(v@),
            forall|x: int, y: int|
                0 <= x < y < n && x < i ==> !((#[trigger] es[x]).0 == (#[trigger] es[y]).0
                    && es[x].1 == es[y].1),
        decreases n - i,
    {
        let mut j: usize = i + 1;
        while j < n
            invariant
                n == v@.len(),
                i < j <= n,
                es == assoc_views(v@),
                forall|y: int|
                    i < y < j ==> !((#[trigger] es[y]).0 == es[i as int].0 && es[y].1 == es[
                        i as int].1),
            decreases n - j,
        {
            if str_eq(v[i].song.as_str(), v[j].song.as_str()) && str_eq(
                v[i].next.as_str(),
                v[j].next.as_str(),
            ) {
                proof {
                    assert(es[i as int].0 == es[j as int].0 && es[i as int].1 == es[j as int].1);
                    assert(!edges_unique(es));
                }
                return false;
            }
            j += 1;
        }
        i += 1;
    }
    true
}

impl Chain {
    /// Restores a store from its persisted text.  Succeeds exactly on
    /// well-formed text; any malformed record, weight above the recorded
    /// ceiling, or duplicate pair rejects the whole text.
    #[verifier::loop_isolation(false)]
    pub fn decode(s: &str) -> (r: Result<Chain, StorageError>)
        ensures
            (r is Ok) == (decode_chain(s@) is Some),
            r matches Ok(c) ==> decode_chain(s@) == Some((c.weight_max, c.edges())) && c.wf()
                && !c.dirty,
            r matches Err(e) ==> e == StorageError::Malformed,
    {
        let n = s.unicode_len();
        let (v, p) = match read_number(s, n, 0) {
            Some(x) => x,
            None => {
                return Err(StorageError::Malformed);
            },
        };
        if v > u32::MAX as u64 {
            return Err(StorageError::Malformed);
        }
        if p >= n {
            return Err(StorageError::Malformed);
        }
        if s.get_char(p) != '\n' {
            return Err(StorageError::Malformed);
        }
        let wmax = v as u32;
        let ghost start = p as int + 1;
        let mut pos = p + 1;
        let mut assocs: Vec<Association> = Vec::new();
        proof {
            assert(assoc_views(assocs@) =~= Seq::<EdgeView>::empty());
            if parse_records(s@, start, wmax) is Some {
                assert(Seq::<EdgeView>::empty() + parse_records(s@, start, wmax)->0 =~= parse_records(
                    s@,
                    start,
                    wmax,
                )->0);
            }
        }
        while pos < n
            invariant
                pos <= n,
                forall|k: int|
                    0 <= k < assocs@.len() ==> (#[trigger] assocs@[k]).weight <= wmax,
                parse_records(s@, start, wmax) == opt_prepend(
                    assoc_views(assocs@),
                    parse_records(s@, pos as int, wmax),
                ),
            decreases n - pos,
        {
            match read_record(s, n, pos, wmax) {
                None => {
                    proof {
                        assert(parse_records(s@, pos as int, wmax) is None);
                        assert(parse_records(s@, start, wmax) is None);
                        assert(decode_chain(s@) is None);
                    }
                    return Err(StorageError::Malformed);
                },
                Some((a, p2)) => {
                    proof {
                        let rest = parse_records(s@, p2 as int, wmax);
                        assert(parse_records(s@, pos as int, wmax) == opt_prepend(
                            seq![a@],
                            rest,
                        ));
                        if rest is Some {
                            assert(assoc_views(assocs@) + (seq![a@] + rest->0) =~= (assoc_views(
                                assocs@,
                            ) + seq![a@]) + rest->0);
                        }
                        assert(assoc_views(assocs@.push(a)) =~= assoc_views(assocs@) + seq![a@]);
                    }
                    assocs.push(a);
                    pos = p2;
                },
            }
        }
        proof {
            assert(parse_records(s@, pos as int, wmax) == Some(Seq::<EdgeView>::empty()));
            assert(assoc_views(assocs@) + Seq::<EdgeView>::empty() =~= assoc_views(assocs@));
            assert(parse_records(s@, start, wmax) == Some(assoc_views(assocs@)));
        }
        if !edges_are_unique(&assocs) {
            return Err(StorageError::Malformed);
        }
        let c = Chain { assocs, weight_max: wmax, dirty: false };
        proof {
            assert(c.edges() =~= assoc_views(c.assocs@));
            assert(decode_chain(s@) == Some((wmax, c.edges())));
            assert(forall|i: int|
                0 <= i < c.edges().len() ==> (#[trigger] c.edges()[i]).2 <= c.weight_max);
        }
        Ok(c)
    }

    /// The persisted text of this store; `decode` restores it exactly.
    pub fn encode(&self) -> (out: String)
        ensures
            out@ == encode_chain(self.weight_max, self.edges()),
    {
        let mut out = String::new();
        push_number(&mut out, self.weight_max as u64);
        out.append("\n");
        proof {
            reveal_strlit("\n");
            assert("\n"@ =~= seq!['\n']);
            assert(self.edges().take(0) =~= Seq::<EdgeView>::empty());
            assert(out@ =~= dec_digits(self.weight_max as nat) + seq!['\n'] + encode_edges(
                self.edges().take(0),
            ));
        }
        let n = self.assocs.len();
        let mut i: usize = 0;
        while i < n
            invariant
                n == self.assocs.len(),
                i <= n,
                out@ == dec_digits(self.weight_max as nat) + seq!['\n'] + encode_edges(
                    self.edges().take(i as int),
                ),
            decreases n - i,
        {
            let ghost out0 = out@;
            let a = &self.assocs[i];
            let fl = a.song.unicode_len();
            push_number(&mut out, fl as u64);
            out.append(" ");
            out.append(a.song.as_str());
            let tl = a.next.unicode_len();
            push_number(&mut out, tl as u64);
            out.append(" ");
            out.append(a.next.as_str());
            push_number(&mut out, a.weight as u64);
            out.append("\n");
            proof {
                reveal_strlit(" ");
                reveal_strlit("\n");
                assert(" "@ =~= seq![' ']);
                assert("\n"@ =~= seq!['\n']);
                let e = self.edges()[i as int];
                assert(e == a@);
                assert(out@ =~= out0 + encode_edge(e));
                lemma_encode_edges_push(self.edges().take(i as int), e);
                assert(self.edges().take(i as int + 1) =~= self.edges().take(i as int).push(e));
                assert(out@ =~= dec_digits(self.weight_max as nat) + seq!['\n'] + encode_edges(
                    self.edges().take(i as int + 1),
                ));
            }
            i += 1;
        }
        proof {
            assert(self.edges().take(n as int) =~= self.edges());
        }
        out
    }
}

} // verus!
