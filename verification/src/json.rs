//! Safe structured encoding: JSON string and number primitives whose
//! escaping keeps the output embeddable inside a `<script>` block.
//!
//! Every `<` (hence every closing-script or comment-open sequence), the
//! line and paragraph separator code points, and the usual JSON control,
//! quote and backslash characters are escaped. The escaping is reversible
//! by a standard JSON string decoder, modeled here by [`unescape_json`].

use vstd::prelude::*;

verus! {

/// The hexadecimal digit character for a value below 16.
pub open spec fn hex_char(d: int) -> char {
    if d == 0 { '0' } else if d == 1 { '1' } else if d == 2 { '2' } else if d == 3 { '3' }
    else if d == 4 { '4' } else if d == 5 { '5' } else if d == 6 { '6' } else if d == 7 { '7' }
    else if d == 8 { '8' } else if d == 9 { '9' } else if d == 10 { 'a' } else if d == 11 { 'b' }
    else if d == 12 { 'c' } else if d == 13 { 'd' } else if d == 14 { 'e' } else { 'f' }
}

/// The numeric value of a hexadecimal digit character, or -1.
pub open spec fn hex_val(c: char) -> int {
    if c == '0' { 0 } else if c == '1' { 1 } else if c == '2' { 2 } else if c == '3' { 3 }
    else if c == '4' { 4 } else if c == '5' { 5 } else if c == '6' { 6 } else if c == '7' { 7 }
    else if c == '8' { 8 } else if c == '9' { 9 }
    else if c == 'a' || c == 'A' { 10 } else if c == 'b' || c == 'B' { 11 }
    else if c == 'c' || c == 'C' { 12 } else if c == 'd' || c == 'D' { 13 }
    else if c == 'e' || c == 'E' { 14 } else if c == 'f' || c == 'F' { 15 }
    else { -1 }
}

pub open spec fn is_hex(c: char) -> bool {
    hex_val(c) >= 0
}

pub proof fn lemma_hex_val_hex_char(d: int)
    requires
        0 <= d < 16,
    ensures
        hex_val(hex_char(d)) == d,
{
}

/// How one character is written inside an encoded JSON string so that the
/// result is both valid JSON and safe to embed in a script context.
pub open spec fn escape_char(c: char) -> Seq<char> {
    if c == '"' {
        seq!['\\', '"']
    } else if c == '\\' {
        seq!['\\', '\\']
    } else if c == '\u{8}' {
        seq!['\\', 'b']
    } else if c == '\u{c}' {
        seq!['\\', 'f']
    } else if c == '\n' {
        seq!['\\', 'n']
    } else if c == '\r' {
        seq!['\\', 'r']
    } else if c == '\t' {
        seq!['\\', 't']
    } else if (c as u32) < 0x20 {
        seq!['\\', 'u', '0', '0', hex_char((c as u32) as int / 16), hex_char((c as u32) as int % 16)]
    } else if c == '<' {
        seq!['\\', 'u', '0', '0', '3', 'c']
    } else if (c as u32) == 0x2028 {
        seq!['\\', 'u', '2', '0', '2', '8']
    } else if (c as u32) == 0x2029 {
        seq!['\\', 'u', '2', '0', '2', '9']
    } else {
        seq![c]
    }
}

/// The body of an encoded JSON string: each character escaped in turn.
pub open spec fn escape_seq(s: Seq<char>) -> Seq<char>
    decreases s.len(),
{
    if s.len() == 0 {
        Seq::empty()
    } else {
        escape_char(s[0]) + escape_seq(s.drop_first())
    }
}

/// A complete encoded JSON string: quoted escaped body.
pub open spec fn json_string(s: Seq<char>) -> Seq<char> {
    seq!['"'] + escape_seq(s) + seq!['"']
}

pub proof fn lemma_escape_seq_concat(a: Seq<char>, b: Seq<char>)
    ensures
        escape_seq(a + b) == escape_seq(a) + escape_seq(b),
    decreases a.len(),
{
    if a.len() == 0 {
        assert(a + b =~= b);
        assert(escape_seq(a) + escape_seq(b) =~= escape_seq(b));
    } else {
        assert((a + b).drop_first() =~= a.drop_first() + b);
        lemma_escape_seq_concat(a.drop_first(), b);
        assert((a + b)[0] == a[0]);
        assert(escape_char(a[0]) + (escape_seq(a.drop_first()) + escape_seq(b)) =~= (escape_char(
            a[0],
        ) + escape_seq(a.drop_first())) + escape_seq(b));
    }
}

/// One escaping step at the end of a prefix.
pub proof fn lemma_escape_seq_step(s: Seq<char>, i: int)
    requires
        0 <= i < s.len(),
    ensures
        escape_seq(s.take(i + 1)) == escape_seq(s.take(i)) + escape_char(s[i]),
{
    assert(s.take(i + 1) =~= s.take(i) + seq![s[i]]);
    lemma_escape_seq_concat(s.take(i), seq![s[i]]);
    let single = seq![s[i]];
    assert(single.drop_first() =~= Seq::<char>::empty());
    assert(single[0] == s[i]);
    assert(escape_seq(single) == escape_char(s[i]) + escape_seq(Seq::<char>::empty()));
    assert(escape_char(s[i]) + Seq::<char>::empty() =~= escape_char(s[i]));
}

/// No escaped character contains `<`: the one character that could open
/// a closing-script or comment sequence never survives encoding.
pub proof fn lemma_escape_char_no_lt(c: char)
    ensures
        forall|i: int| 0 <= i < escape_char(c).len() ==> (#[trigger] escape_char(c)[i]) != '<',
{
}

/// The body of an encoded string contains no `<` at all.
pub proof fn lemma_escape_seq_no_lt(s: Seq<char>)
    ensures
        forall|i: int| 0 <= i < escape_seq(s).len() ==> (#[trigger] escape_seq(s)[i]) != '<',
    decreases s.len(),
{
    if s.len() > 0 {
        lemma_escape_char_no_lt(s[0]);
        lemma_escape_seq_no_lt(s.drop_first());
        let e = escape_char(s[0]);
        let rest = escape_seq(s.drop_first());
        assert forall|i: int| 0 <= i < escape_seq(s).len()
            implies (#[trigger] escape_seq(s)[i]) != '<' by {
            if i < e.len() {
                assert(escape_seq(s)[i] == e[i]);
            } else {
                assert(escape_seq(s)[i] == rest[i - e.len()]);
            }
        }
    }
}

/// Decimal digit character.
pub open spec fn dec_digit(d: int) -> char {
    if d == 0 { '0' } else if d == 1 { '1' } else if d == 2 { '2' } else if d == 3 { '3' }
    else if d == 4 { '4' } else if d == 5 { '5' } else if d == 6 { '6' } else if d == 7 { '7' }
    else if d == 8 { '8' } else { '9' }
}

/// The decimal representation of a nonnegative number, no leading zeros.
pub open spec fn dec_rep(n: nat) -> Seq<char>
    decreases n,
{
    if n < 10 {
        seq![dec_digit(n as int)]
    } else {
        dec_rep(n / 10) + seq![dec_digit((n % 10) as int)]
    }
}

/// Decimal digits are never `<`.
pub proof fn lemma_dec_rep_no_lt(n: nat)
    ensures
        forall|i: int| 0 <= i < dec_rep(n).len() ==> (#[trigger] dec_rep(n)[i]) != '<',
    decreases n,
{
    if n < 10 {
        assert forall|i: int| 0 <= i < dec_rep(n).len()
            implies (#[trigger] dec_rep(n)[i]) != '<' by {
            assert(dec_rep(n)[0] == dec_digit(n as int));
        }
    } else {
        lemma_dec_rep_no_lt(n / 10);
        let a = dec_rep(n / 10);
        let b = seq![dec_digit((n % 10) as int)];
        assert forall|i: int| 0 <= i < dec_rep(n).len()
            implies (#[trigger] dec_rep(n)[i]) != '<' by {
            if i < a.len() {
                assert(dec_rep(n)[i] == a[i]);
            } else {
                assert(dec_rep(n)[i] == b[i - a.len()]);
            }
        }
    }
}

/// Appends the decimal representation of `v`.
pub fn push_u64(out: &mut Vec<char>, v: u64)
    ensures
        final(out)@ == old(out)@ + dec_rep(v as nat),
    decreases v,
{
    if v < 10 {
        out.push(dec_digit_exec(v));
        proof {
            assert(out@ =~= old(out)@ + dec_rep(v as nat));
        }
    } else {
        push_u64(out, v / 10);
        out.push(dec_digit_exec(v % 10));
        proof {
            assert(out@ =~= old(out)@ + dec_rep(v as nat));
        }
    }
}

/// Appends the decimal representation of a length or count.
pub fn push_usize(out: &mut Vec<char>, v: usize)
    ensures
        final(out)@ == old(out)@ + dec_rep(v as nat),
{
    push_u64(out, v as u64);
}

fn dec_digit_exec(d: u64) -> (c: char)
    requires
        d < 10,
    ensures
        c == dec_digit(d as int),
{
    if d == 0 { '0' } else if d == 1 { '1' } else if d == 2 { '2' } else if d == 3 { '3' }
    else if d == 4 { '4' } else if d == 5 { '5' } else if d == 6 { '6' } else if d == 7 { '7' }
    else if d == 8 { '8' } else { '9' }
}

fn hex_digit_exec(d: u32) -> (c: char)
    requires
        d < 16,
    ensures
        c == hex_char(d as int),
{
    if d == 0 { '0' } else if d == 1 { '1' } else if d == 2 { '2' } else if d == 3 { '3' }
    else if d == 4 { '4' } else if d == 5 { '5' } else if d == 6 { '6' } else if d == 7 { '7' }
    else if d == 8 { '8' } else if d == 9 { '9' } else if d == 10 { 'a' } else if d == 11 { 'b' }
    else if d == 12 { 'c' } else if d == 13 { 'd' } else if d == 14 { 'e' } else { 'f' }
}

/// Appends the escaped form of one character.
pub fn push_escaped(out: &mut Vec<char>, c: char)
    ensures
        final(out)@ == old(out)@ + escape_char(c),
{
    if c == '"' {
        out.push('\\');
        out.push('"');
    } else if c == '\\' {
        out.push('\\');
        out.push('\\');
    } else if c == '\u{8}' {
        out.push('\\');
        out.push('b');
    } else if c == '\u{c}' {
        out.push('\\');
        out.push('f');
    } else if c == '\n' {
        out.push('\\');
        out.push('n');
    } else if c == '\r' {
        out.push('\\');
        out.push('r');
    } else if c == '\t' {
        out.push('\\');
        out.push('t');
    } else if (c as u32) < 0x20 {
        out.push('\\');
        out.push('u');
        out.push('0');
        out.push('0');
        out.push(hex_digit_exec((c as u32) / 16));
        out.push(hex_digit_exec((c as u32) % 16));
    } else if c == '<' {
        out.push('\\');
        out.push('u');
        out.push('0');
        out.push('0');
        out.push('3');
        out.push('c');
    } else if (c as u32) == 0x2028 {
        out.push('\\');
        out.push('u');
        out.push('2');
        out.push('0');
        out.push('2');
        out.push('8');
    } else if (c as u32) == 0x2029 {
        out.push('\\');
        out.push('u');
        out.push('2');
        out.push('0');
        out.push('2');
        out.push('9');
    } else {
        out.push(c);
    }
    proof {
        assert(out@ =~= old(out)@ + escape_char(c));
    }
}

/// Appends the full encoded JSON string for `s`.
pub fn push_json_string(out: &mut Vec<char>, s: &str)
    ensures
        final(out)@ == old(out)@ + json_string(s@),
{
    out.push('"');
    let n: usize = s.unicode_len();
    let mut i: usize = 0;
    proof {
        assert(s@.take(0) =~= Seq::<char>::empty());
        assert(out@ =~= old(out)@ + seq!['"'] + escape_seq(s@.take(0)));
    }
    while i < n
        invariant
            i <= n,
            n == s@.len(),
            out@ == old(out)@ + seq!['"'] + escape_seq(s@.take(i as int)),
        decreases n - i,
    {
        push_escaped(out, s.get_char(i));
        proof {
            lemma_escape_seq_step(s@, i as int);
        }
        i = i + 1;
    }
    out.push('"');
    proof {
        assert(s@.take(n as int) =~= s@);
        assert(out@ =~= old(out)@ + json_string(s@));
    }
}

/// Prepends one decoded character to a decoder result.
pub open spec fn cons_decoded(c: char, rest: Option<Seq<char>>) -> Option<Seq<char>> {
    match rest {
        Some(r) => Some(seq![c] + r),
        None => None,
    }
}

/// A standard JSON string-body decoder: resolves backslash escapes
/// (including four-hex-digit `\u` forms for scalar values) and rejects
/// raw quotes, raw control characters and malformed escapes.
pub open spec fn unescape_json(s: Seq<char>) -> Option<Seq<char>>
    decreases s.len(),
{
    if s.len() == 0 {
        Some(Seq::empty())
    } else if s[0] == '\\' {
        if s.len() < 2 {
            None
        } else if s[1] == '"' {
            cons_decoded('"', unescape_json(s.skip(2)))
        } else if s[1] == '\\' {
            cons_decoded('\\', unescape_json(s.skip(2)))
        } else if s[1] == '/' {
            cons_decoded('/', unescape_json(s.skip(2)))
        } else if s[1] == 'b' {
            cons_decoded('\u{8}', unescape_json(s.skip(2)))
        } else if s[1] == 'f' {
            cons_decoded('\u{c}', unescape_json(s.skip(2)))
        } else if s[1] == 'n' {
            cons_decoded('\n', unescape_json(s.skip(2)))
        } else if s[1] == 'r' {
            cons_decoded('\r', unescape_json(s.skip(2)))
        } else if s[1] == 't' {
            cons_decoded('\t', unescape_json(s.skip(2)))
        } else if s[1] == 'u' {
            if s.len() < 6 {
                None
            } else if is_hex(s[2]) && is_hex(s[3]) && is_hex(s[4]) && is_hex(s[5]) {
                let v = hex_val(s[2]) * 4096 + hex_val(s[3]) * 256 + hex_val(s[4]) * 16 + hex_val(
                    s[5],
                );
                if vstd::utf8::is_scalar(v as u32) {
                    cons_decoded((v as u32) as char, unescape_json(s.skip(6)))
                } else {
                    None
                }
            } else {
                None
            }
        } else {
            None
        }
    } else if s[0] == '"' || (s[0] as u32) < 0x20 {
        None
    } else {
        cons_decoded(s[0], unescape_json(s.drop_first()))
    }
}

/// Round trip: decoding an escaped body gives back the original text.
pub proof fn lemma_unescape_escape(s: Seq<char>)
    ensures
        unescape_json(escape_seq(s)) == Some(s),
    decreases s.len(),
{
    if s.len() == 0 {
    } else {
        let c = s[0];
        let e = escape_char(c);
        let rest = escape_seq(s.drop_first());
        let w = escape_seq(s);
        assert(w == e + rest);
        lemma_unescape_escape(s.drop_first());
        vstd::utf8::char_is_scalar(c);
        vstd::utf8::char_u32_cast(c, c as u32);
        if e.len() == 1 {
            // unescaped character: not a backslash, quote, or control
            assert(w[0] == c);
            assert(w.drop_first() =~= rest);
        } else if e.len() == 2 {
            assert(w[0] == e[0] && w[1] == e[1]);
            assert(w.skip(2) =~= rest);
        } else {
            // a four-hex-digit escape
            assert(e.len() == 6);
            assert(w[0] == e[0] && w[1] == e[1] && w[2] == e[2] && w[3] == e[3] && w[4] == e[4]
                && w[5] == e[5]);
            assert(w.skip(6) =~= rest);
            if c == '<' {
                assert(hex_val('0') * 4096 + hex_val('0') * 256 + hex_val('3') * 16 + hex_val('c')
                    == 0x3c);
                assert(('<' as u32) == 0x3c);
            } else if (c as u32) == 0x2028 || (c as u32) == 0x2029 {
            } else {
                // a control character written as \u00XX
                let v = c as u32;
                lemma_hex_val_hex_char(v as int / 16);
                lemma_hex_val_hex_char(v as int % 16);
                assert(hex_val(e[2]) * 4096 + hex_val(e[3]) * 256 + hex_val(e[4]) * 16 + hex_val(
                    e[5],
                ) == v as int);
            }
        }
        assert(seq![c] + s.drop_first() =~= s);
    }
}

} // verus!

verus! {

/// The sequence holds no `<` character.
pub open spec fn no_lt(s: Seq<char>) -> bool {
    forall|i: int| 0 <= i < s.len() ==> (#[trigger] s[i]) != '<'
}

/// Concatenation preserves freedom from `<`.
pub proof fn lemma_no_lt_concat(a: Seq<char>, b: Seq<char>)
    requires
        no_lt(a),
        no_lt(b),
    ensures
        no_lt(a + b),
{
    assert forall|i: int| 0 <= i < (a + b).len() implies ((a + b)[i]) != '<' by {
        if i < a.len() {
            assert((a + b)[i] == a[i]);
        } else {
            assert((a + b)[i] == b[i - a.len()]);
        }
    }
}

/// A complete encoded string contains no `<`.
pub proof fn lemma_no_lt_json_string(s: Seq<char>)
    ensures
        no_lt(json_string(s)),
{
    lemma_escape_seq_no_lt(s);
    assert(seq!['"'][0] == '"');
    assert(no_lt(seq!['"']));
    lemma_no_lt_concat(seq!['"'], escape_seq(s));
    lemma_no_lt_concat(seq!['"'] + escape_seq(s), seq!['"']);
    assert(json_string(s) =~= (seq!['"'] + escape_seq(s)) + seq!['"']);
}

/// A decimal representation contains no `<`.
pub proof fn lemma_no_lt_dec_rep(n: nat)
    ensures
        no_lt(dec_rep(n)),
{
    lemma_dec_rep_no_lt(n);
}

} // verus!
