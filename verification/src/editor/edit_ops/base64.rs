//! Base64, for the clipboard sequence that terminals understand.

use vstd::prelude::*;
use vstd::string::*;

verus! {

/// The character that stands for six bits.
pub open spec fn digit(n: int) -> char {
    if n < 26 {
        ((65 + n) as u8) as char
    } else if n < 52 {
        ((97 + (n - 26)) as u8) as char
    } else if n < 62 {
        ((48 + (n - 52)) as u8) as char
    } else if n == 62 {
        '+'
    } else {
        '/'
    }
}

/// The standard base64 text of `b`: four characters for each three bytes, filled
/// up with `=`.
pub open spec fn base64(b: Seq<u8>) -> Seq<char>
    decreases b.len(),
{
    if b.len() == 0 {
        Seq::empty()
    } else if b.len() == 1 {
        seq![digit(b[0] as int / 4), digit((b[0] % 4) * 16), '=', '=']
    } else if b.len() == 2 {
        seq![
            digit(b[0] as int / 4),
            digit((b[0] % 4) * 16 + b[1] / 16),
            digit((b[1] % 16) * 4),
            '=',
        ]
    } else {
        seq![
            digit(b[0] as int / 4),
            digit((b[0] % 4) * 16 + b[1] / 16),
            digit((b[1] % 16) * 4 + b[2] / 64),
            digit(b[2] as int % 64),
        ] + base64(b.skip(3))
    }
}

fn digit_char(n: u8) -> (r: char)
    requires
        n < 64,
    ensures
        r == digit(n as int),
{
    if n < 26 {
        (65 + n) as char
    } else if n < 52 {
        (97 + (n - 26)) as char
    } else if n < 62 {
        (48 + (n - 52)) as char
    } else if n == 62 {
        '+'
    } else {
        '/'
    }
}

/// The standard base64 text of `data`.
pub fn base64_encode(data: &[u8]) -> (r: String)
    ensures
        r@ == base64(data@),
{
    let mut out: String = String::new();
    let mut i: usize = 0;
    let len: usize = data.len();
    assert(data@.skip(0) =~= data@);
    while i < len
        invariant
            i <= len == data@.len(),
            out@ + base64(data@.skip(i as int)) == base64(data@),
        decreases len - i,
    {
        let ghost rest = data@.skip(i as int);
        let ghost before = out@;
        let b0: u8 = data[i];
        assert(rest[0] == b0);
        out.push(digit_char(b0 / 4));
        if len - i == 1 {
            out.push(digit_char((b0 % 4) * 16));
            out.push('=');
            out.push('=');
            assert(out@ =~= before + base64(rest));
            i = len;
        } else if len - i == 2 {
            let b1: u8 = data[i + 1];
            assert(rest[1] == b1);
            out.push(digit_char((b0 % 4) * 16 + b1 / 16));
            out.push(digit_char((b1 % 16) * 4));
            out.push('=');
            assert(out@ =~= before + base64(rest));
            i = len;
        } else {
            let b1: u8 = data[i + 1];
            let b2: u8 = data[i + 2];
            assert(rest[1] == b1);
            assert(rest[2] == b2);
            out.push(digit_char((b0 % 4) * 16 + b1 / 16));
            out.push(digit_char((b1 % 16) * 4 + b2 / 64));
            out.push(digit_char(b2 % 64));
            assert(rest.skip(3) =~= data@.skip(i + 3));
            assert(out@ + base64(rest.skip(3)) =~= before + base64(rest));
            i += 3;
        }
        assert(data@.skip(len as int) =~= Seq::<u8>::empty());
        assert(i == len ==> out@ + base64(data@.skip(i as int)) =~= out@);
    }
    assert(data@.skip(i as int) =~= Seq::<u8>::empty());
    assert(out@ + Seq::<char>::empty() =~= out@);
    out
}

/// The escape sequence that puts `text` on the terminal's clipboard.
pub open spec fn osc52(text: Seq<u8>) -> Seq<char> {
    seq!['\u{1b}', ']', '5', '2', ';', 'c', ';'] + base64(text) + seq!['\u{7}']
}

/// The escape sequence that puts `text` on the terminal's clipboard.
pub fn osc52_sequence(text: &str) -> (r: String)
    ensures
        r@ == osc52(text.spec_bytes()),
{
    let mut out: String = String::new();
    out.push('\u{1b}');
    out.push(']');
    out.push('5');
    out.push('2');
    out.push(';');
    out.push('c');
    out.push(';');
    let encoded: String = base64_encode(text.as_bytes());
    out.append(encoded.as_str());
    out.push('\u{7}');
    assert(out@ =~= osc52(text.spec_bytes()));
    out
}

/// The six bits that a character of base64 stands for.
pub open spec fn six_bits(c: char) -> int {
    if 'A' <= c <= 'Z' {
        c as int - 'A' as int
    } else if 'a' <= c <= 'z' {
        c as int - 'a' as int + 26
    } else if '0' <= c <= '9' {
        c as int - '0' as int + 52
    } else if c == '+' {
        62
    } else {
        63
    }
}

proof fn lemma_digit(n: int)
    requires
        0 <= n < 64,
    ensures
        six_bits(digit(n)) == n,
        digit(n) != '=',
{
}

/// The text can be read back: four characters for each three bytes, or for the one or two
/// that are left, hold their bits in order, and equals signs fill up the last four.
pub proof fn law_base64_reads_back(b: Seq<u8>, i: int)
    requires
        0 <= i && 3 * i < b.len(),
    ensures
        ({
            let t = base64(b);
            let c = 4 * i;
            let k = 3 * i;
            &&& t.len() == 4 * ((b.len() + 2) / 3)
            &&& c + 4 <= t.len()
            &&& six_bits(t[c]) * 4 + six_bits(t[c + 1]) / 16 == b[k]
            &&& k + 1 < b.len() ==> (six_bits(t[c + 1]) % 16) * 16 + six_bits(t[c + 2]) / 4 == b[k
                + 1]
            &&& k + 2 < b.len() ==> (six_bits(t[c + 2]) % 4) * 64 + six_bits(t[c + 3]) == b[k + 2]
            &&& k + 1 == b.len() ==> t[c + 2] == '=' && t[c + 3] == '='
            &&& k + 2 == b.len() ==> t[c + 3] == '='
        }),
    decreases b.len(),
{
    let t = base64(b);
    lemma_base64_len(b);
    if i == 0 {
        let x = b[0] as int;
        lemma_digit(x / 4);
        if b.len() == 1 {
            lemma_digit((x % 4) * 16);
        } else {
            let y = b[1] as int;
            lemma_digit((x % 4) * 16 + y / 16);
            if b.len() == 2 {
                lemma_digit((y % 16) * 4);
            } else {
                let z = b[2] as int;
                lemma_digit((y % 16) * 4 + z / 64);
                lemma_digit(z % 64);
            }
        }
    } else {
        let rest = b.skip(3);
        law_base64_reads_back(rest, i - 1);
        let u = base64(rest);
        assert forall|j: int| 0 <= j < u.len() implies #[trigger] t[4 + j] == u[j] by {}
        assert(t[4 * i] == u[4 * (i - 1)]);
        assert(t[4 * i + 1] == u[4 * (i - 1) + 1]);
        assert(t[4 * i + 2] == u[4 * (i - 1) + 2]);
        assert(t[4 * i + 3] == u[4 * (i - 1) + 3]);
    }
}

proof fn lemma_base64_len(b: Seq<u8>)
    ensures
        base64(b).len() == 4 * ((b.len() + 2) / 3),
    decreases b.len(),
{
    if b.len() >= 3 {
        lemma_base64_len(b.skip(3));
    }
}

/// The sequence for the terminal's clipboard is the escape for it, the text in base64 and
/// the bell.
pub proof fn law_clipboard_sequence(text: Seq<u8>)
    ensures
        ({
            let t = osc52(text);
            let n = base64(text).len();
            &&& t.len() == n + 8
            &&& t.subrange(0, 7) == seq!['\u{1b}', ']', '5', '2', ';', 'c', ';']
            &&& t.subrange(7, 7 + n as int) == base64(text)
            &&& t[7 + n as int] == '\u{7}'
        }),
{
    let n = base64(text).len() as int;
    assert(osc52(text).subrange(0, 7) =~= seq!['\u{1b}', ']', '5', '2', ';', 'c', ';']);
    assert(osc52(text).subrange(7, 7 + n) =~= base64(text));
}

} // verus!
