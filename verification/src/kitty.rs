//! Frames as pictures of the kitty graphics protocol: the pixels in base64,
//! in escape sequences of at most 4096 characters of data each.

use vstd::prelude::*;
use crate::text::{append_decimal, append_str, string_of};
use crate::text::decimal;

verus! {

// ── Base64 ───────────────────────────────────────────────────────────────

/// The characters of base64, by the six bits that they stand for.
pub open spec fn base64_alphabet() -> Seq<char> {
    seq![
        'A', 'B', 'C', 'D', 'E', 'F', 'G', 'H', 'I', 'J', 'K', 'L', 'M', 'N', 'O', 'P',
        'Q', 'R', 'S', 'T', 'U', 'V', 'W', 'X', 'Y', 'Z', 'a', 'b', 'c', 'd', 'e', 'f',
        'g', 'h', 'i', 'j', 'k', 'l', 'm', 'n', 'o', 'p', 'q', 'r', 's', 't', 'u', 'v',
        'w', 'x', 'y', 'z', '0', '1', '2', '3', '4', '5', '6', '7', '8', '9', '+', '/',
    ]
}

fn base64_table() -> (t: [char; 64])
    ensures
        t@ == base64_alphabet(),
{
    let t: [char; 64] = [
        'A', 'B', 'C', 'D', 'E', 'F', 'G', 'H', 'I', 'J', 'K', 'L', 'M', 'N', 'O', 'P',
        'Q', 'R', 'S', 'T', 'U', 'V', 'W', 'X', 'Y', 'Z', 'a', 'b', 'c', 'd', 'e', 'f',
        'g', 'h', 'i', 'j', 'k', 'l', 'm', 'n', 'o', 'p', 'q', 'r', 's', 't', 'u', 'v',
        'w', 'x', 'y', 'z', '0', '1', '2', '3', '4', '5', '6', '7', '8', '9', '+', '/',
    ];
    assert(t@ =~= base64_alphabet());
    t
}

/// The byte at `i`, zero behind the end.
pub open spec fn byte_at(bytes: Seq<u8>, i: int) -> int {
    if i < bytes.len() {
        bytes[i] as int
    } else {
        0
    }
}

/// The characters of up to three bytes: six bits each, and `=` where there is
/// no byte left.
pub open spec fn base64_group(bytes: Seq<u8>) -> Seq<char> {
    let (a, b, c) = (byte_at(bytes, 0), byte_at(bytes, 1), byte_at(bytes, 2));
    seq![
        base64_alphabet()[a / 4],
        base64_alphabet()[(a % 4) * 16 + b / 16],
        if bytes.len() > 1 {
            base64_alphabet()[(b % 16) * 4 + c / 64]
        } else {
            '='
        },
        if bytes.len() > 2 {
            base64_alphabet()[c % 64]
        } else {
            '='
        },
    ]
}

/// Bytes in base64, three by three.
pub open spec fn base64(bytes: Seq<u8>) -> Seq<char>
    decreases bytes.len(),
{
    if bytes.len() == 0 {
        Seq::empty()
    } else if bytes.len() <= 3 {
        base64_group(bytes)
    } else {
        base64_group(bytes.take(3)) + base64(bytes.skip(3))
    }
}

pub fn base64_of(bytes: &[u8]) -> (r: Vec<char>)
    ensures
        r@ == base64(bytes@),
{
    let t: [char; 64] = base64_table();
    let mut out: Vec<char> = Vec::new();
    let mut i: usize = 0;
    assert(bytes@.skip(0) =~= bytes@);
    while i < bytes.len()
        invariant
            i <= bytes.len(),
            t@ == base64_alphabet(),
            out@ + base64(bytes@.skip(i as int)) == base64(bytes@),
        decreases bytes.len() - i,
    {
        let ghost rest = bytes@.skip(i as int);
        let ghost before = out@;
        let left: usize = bytes.len() - i;
        let a: u8 = bytes[i];
        let b: u8 = if left > 1 {
            bytes[i + 1]
        } else {
            0
        };
        let c: u8 = if left > 2 {
            bytes[i + 2]
        } else {
            0
        };
        out.push(t[(a / 4) as usize]);
        out.push(t[((a % 4) * 16 + b / 16) as usize]);
        out.push(
            if left > 1 {
                t[((b % 16) * 4 + c / 64) as usize]
            } else {
                '='
            },
        );
        out.push(
            if left > 2 {
                t[(c % 64) as usize]
            } else {
                '='
            },
        );
        let n: usize = if left < 3 {
            left
        } else {
            3
        };
        proof {
            let group = base64_group(rest.take(n as int));
            assert(out@ =~= before + group);
            assert(rest.skip(n as int) =~= bytes@.skip(i + n));
            if rest.len() <= 3 {
                assert(rest.take(n as int) =~= rest);
                assert(rest.skip(n as int) =~= Seq::<u8>::empty());
            }
            assert(base64(rest) =~= group + base64(rest.skip(n as int)));
            assert(out@ + base64(rest.skip(n as int)) =~= before + base64(rest));
        }
        i = i + n;
    }
    assert(bytes@.skip(i as int) =~= Seq::<u8>::empty());
    assert(out@ + base64(bytes@.skip(i as int)) =~= out@);
    out
}

// ── Frames ───────────────────────────────────────────────────────────────

/// The start of the first escape sequence: RGBA pixels of this size, drawn as
/// the one picture over these cells, with no answer and the cursor in place.
pub open spec fn placement(w: u32, h: u32, cols: u16, rows: u16) -> Seq<char> {
    "\x1b_Ga=T,f=32,i=1,p=1,q=2,C=1,s="@ + decimal(w as nat) + ",v="@ + decimal(h as nat) + ",c="@
        + decimal(cols as nat) + ",r="@ + decimal(rows as nat) + ",m="@
}

/// Escape sequences for the data, the first one started by `lead`: each says
/// whether another one follows.
pub open spec fn sequences(data: Seq<char>, lead: Seq<char>) -> Seq<char>
    decreases data.len(),
{
    if data.len() <= 4096 {
        lead + "0;"@ + data + "\x1b\\"@
    } else {
        lead + "1;"@ + data.take(4096) + "\x1b\\"@ + sequences(data.skip(4096), "\x1b_Gm="@)
    }
}

/// A frame as one picture over `cols`×`rows` cells; nothing where there are no
/// pixels.
pub open spec fn kitty_frame(rgba: Seq<u8>, w: u32, h: u32, cols: u16, rows: u16) -> Seq<char> {
    if w > 0 && h > 0 && rgba.len() > 0 {
        sequences(base64(rgba), placement(w, h, cols, rows))
    } else {
        Seq::empty()
    }
}

fn append_placement(out: &mut Vec<char>, w: u32, h: u32, cols: u16, rows: u16)
    ensures
        final(out)@ == old(out)@ + placement(w, h, cols, rows),
{
    append_str(out, "\x1b_Ga=T,f=32,i=1,p=1,q=2,C=1,s=");
    append_decimal(out, w as u64);
    append_str(out, ",v=");
    append_decimal(out, h as u64);
    append_str(out, ",c=");
    append_decimal(out, cols as u64);
    append_str(out, ",r=");
    append_decimal(out, rows as u64);
    append_str(out, ",m=");
    assert(out@ =~= old(out)@ + placement(w, h, cols, rows));
}

/// Appends the data from `from` up to `to`.
fn append_part(out: &mut Vec<char>, data: &Vec<char>, from: usize, to: usize)
    requires
        from <= to <= data@.len(),
    ensures
        final(out)@ == old(out)@ + data@.subrange(from as int, to as int),
{
    let ghost start = out@;
    let mut i: usize = from;
    while i < to
        invariant
            from <= i <= to <= data@.len(),
            out@ =~= start + data@.subrange(from as int, i as int),
        decreases to - i,
    {
        out.push(data[i]);
        i = i + 1;
    }
}

pub fn render_kitty_frame(rgba: &[u8], w: u32, h: u32, cols: u16, rows: u16) -> (s: String)
    ensures
        s@ == kitty_frame(rgba@, w, h, cols, rows),
{
    let mut out: Vec<char> = Vec::new();
    if w == 0 || h == 0 || rgba.len() == 0 {
        return string_of(out.as_slice());
    }
    let data: Vec<char> = base64_of(rgba);
    append_placement(&mut out, w, h, cols, rows);
    let ghost whole = sequences(data@, placement(w, h, cols, rows));
    let ghost mut done = Seq::<char>::empty();
    let ghost mut lead = placement(w, h, cols, rows);
    let mut at: usize = 0;
    assert(data@.skip(0) =~= data@);
    assert(out@ =~= done + lead);
    assert(done + sequences(data@, lead) =~= whole);
    while data.len() - at > 4096
        invariant
            at <= data@.len(),
            out@ == done + lead,
            done + sequences(data@.skip(at as int), lead) == whole,
        decreases data.len() - at,
    {
        let ghost rest = data@.skip(at as int);
        append_str(&mut out, "1;");
        append_part(&mut out, &data, at, at + 4096);
        append_str(&mut out, "\x1b\\");
        let ghost part = out@;
        append_str(&mut out, "\x1b_Gm=");
        proof {
            assert(rest.take(4096) =~= data@.subrange(at as int, at + 4096));
            assert(rest.skip(4096) =~= data@.skip(at + 4096));
            assert(part =~= done + (lead + "1;"@ + rest.take(4096) + "\x1b\\"@));
            assert(done + sequences(rest, lead) =~= part + sequences(
                rest.skip(4096),
                "\x1b_Gm="@,
            ));
            done = part;
            lead = "\x1b_Gm="@;
        }
        at = at + 4096;
    }
    let ghost rest = data@.skip(at as int);
    append_str(&mut out, "0;");
    append_part(&mut out, &data, at, data.len());
    append_str(&mut out, "\x1b\\");
    proof {
        assert(rest =~= data@.subrange(at as int, data@.len() as int));
        assert(out@ =~= done + (lead + "0;"@ + rest + "\x1b\\"@));
    }
    string_of(out.as_slice())
}

// ── Reading base64 ───────────────────────────────────────────────────────

/// The six bits that a character of base64 stands for: the capital letters
/// first, then the small ones, the digits, and two signs.
pub open spec fn six_bits(c: char) -> int {
    if 'A' <= c <= 'Z' {
        c as int - 'A' as int
    } else if 'a' <= c <= 'z' {
        c as int - 'a' as int + 26
    } else if '0' <= c <= '9' {
        c as int - '0' as int + 52
    } else if c == '+' {
        62
    } else {
        63
    }
}

proof fn lemma_alphabet(v: int)
    requires
        0 <= v < 64,
    ensures
        six_bits(base64_alphabet()[v]) == v,
        base64_alphabet()[v] != '=',
{
}

/// The four characters of three bytes hold the twenty-four bits of those bytes,
/// in their order; of fewer bytes, only as many characters hold bits, and the
/// rest are equals signs.
pub proof fn law_base64_holds_the_bits(a: u8, b: u8, c: u8)
    ensures
        ({
            let t = base64(seq![a, b, c]);
            &&& t.len() == 4
            &&& six_bits(t[0]) * 262144 + six_bits(t[1]) * 4096 + six_bits(t[2]) * 64 + six_bits(t[3])
                == a * 65536 + b * 256 + c
            &&& t[3] != '='
        }),
        ({
            let t = base64(seq![a, b]);
            &&& t.len() == 4
            &&& six_bits(t[0]) * 4096 + six_bits(t[1]) * 64 + six_bits(t[2]) == (a * 256 + b) * 4
            &&& t[2] != '=' && t[3] == '='
        }),
        ({
            let t = base64(seq![a]);
            &&& t.len() == 4
            &&& six_bits(t[0]) * 64 + six_bits(t[1]) == a * 16
            &&& t[1] != '=' && t[2] == '=' && t[3] == '='
        }),
{
    let (x, y, z) = (a as int, b as int, c as int);
    lemma_alphabet(x / 4);
    lemma_alphabet((x % 4) * 16 + y / 16);
    lemma_alphabet((y % 16) * 4 + z / 64);
    lemma_alphabet(z % 64);
    lemma_alphabet((y % 16) * 4);
    lemma_alphabet((x % 4) * 16);
}

/// Bytes are written three by three: a first part of whole groups is written
/// as if it stood alone, and every three bytes, or fewer at the end, make four
/// characters.
pub proof fn law_base64_goes_by_threes(a: Seq<u8>, b: Seq<u8>)
    requires
        a.len() % 3 == 0,
    ensures
        base64(a + b) == base64(a) + base64(b),
        base64(b).len() == 4 * ((b.len() + 2) / 3),
    decreases a.len() + b.len(),
{
    if a.len() == 0 {
        assert(a + b =~= b);
        assert(base64(a) + base64(b) =~= base64(b));
        if b.len() > 3 {
            law_base64_goes_by_threes(Seq::empty(), b.skip(3));
        }
    } else {
        law_base64_goes_by_threes(a.skip(3), b);
        assert((a + b).take(3) =~= a.take(3));
        assert((a + b).skip(3) =~= a.skip(3) + b);
        if a.len() == 3 {
            assert(a.take(3) =~= a);
            assert(a.skip(3) =~= Seq::<u8>::empty());
            assert(a.skip(3) + b =~= b);
            if b.len() == 0 {
                assert(a + b =~= a);
                assert(base64(a) + base64(b) =~= base64(a));
            }
        } else {
            assert(base64(a) == base64_group(a.take(3)) + base64(a.skip(3)));
            assert(base64(a + b) =~= base64(a) + base64(b));
        }
    }
}

/// A sequence carries at most 4096 characters and is marked with a 1 where
/// another follows it and with a 0 where none does; the next one goes on with
/// the data where it stopped.
pub proof fn law_sequences_carry_the_data(data: Seq<char>, lead: Seq<char>)
    ensures
        ({
            let s = sequences(data, lead);
            let n = lead.len() as int;
            let part: int = if data.len() <= 4096 {
                data.len() as int
            } else {
                4096
            };
            let rest = s.skip(n + 2 + part + 2);
            &&& s.len() >= n + 2 + part + 2
            &&& s.take(n) == lead
            &&& s[n] == (if data.len() <= 4096 {
                '0'
            } else {
                '1'
            })
            &&& s[n + 1] == ';'
            &&& s.subrange(n + 2, n + 2 + part) == data.take(part)
            &&& s[n + 2 + part] == '\x1b' && s[n + 3 + part] == '\\'
            &&& data.len() <= 4096 ==> rest.len() == 0
            &&& data.len() > 4096 ==> rest == sequences(data.skip(4096), "\x1b_Gm="@)
        }),
{
    reveal_strlit("0;");
    reveal_strlit("1;");
    reveal_strlit("\x1b\\");
    let s = sequences(data, lead);
    let n = lead.len() as int;
    assert(s.take(n) =~= lead);
    if data.len() <= 4096 {
        let part = data.len() as int;
        assert(s.subrange(n + 2, n + 2 + part) =~= data.take(part));
    } else {
        assert(s.subrange(n + 2, n + 2 + 4096) =~= data.take(4096));
        assert(s.skip(n + 2 + 4096 + 2) =~= sequences(data.skip(4096), "\x1b_Gm="@));
    }
}

/// A frame without pixels is not drawn, and every other one is.
pub proof fn law_frames_with_pixels_are_drawn(
    rgba: Seq<u8>,
    w: u32,
    h: u32,
    cols: u16,
    rows: u16,
)
    ensures
        w == 0 || h == 0 || rgba.len() == 0 <==> kitty_frame(rgba, w, h, cols, rows).len() == 0,
{
    if w > 0 && h > 0 && rgba.len() > 0 {
        law_sequences_carry_the_data(base64(rgba), placement(w, h, cols, rows));
    }
}

/// A picture is announced by its width and height in pixels first, and by the
/// columns and rows that it covers last.
pub proof fn law_pictures_are_announced_by_size(w: u32, h: u32, cols: u16, rows: u16)
    ensures
        ({
            let p = placement(w, h, cols, rows);
            let pixels = "s="@ + decimal(w as nat) + ",v="@ + decimal(h as nat);
            let cells = ",c="@ + decimal(cols as nat) + ",r="@ + decimal(rows as nat) + ",m="@;
            &&& p.len() == 28 + pixels.len() + cells.len()
            &&& p.subrange(28, 28 + pixels.len() as int) == pixels
            &&& p.skip(28 + pixels.len() as int) == cells
        }),
{
    reveal_strlit("\x1b_Ga=T,f=32,i=1,p=1,q=2,C=1,s=");
    reveal_strlit("s=");
    let p = placement(w, h, cols, rows);
    let head = "\x1b_Ga=T,f=32,i=1,p=1,q=2,C=1,s="@;
    let pixels = "s="@ + decimal(w as nat) + ",v="@ + decimal(h as nat);
    let cells = ",c="@ + decimal(cols as nat) + ",r="@ + decimal(rows as nat) + ",m="@;
    assert(head.len() == 30);
    assert(p =~= head + (decimal(w as nat) + ",v="@ + decimal(h as nat)) + cells);
    assert(pixels =~= "s="@ + (decimal(w as nat) + ",v="@ + decimal(h as nat)));
    assert(p.subrange(28, 28 + pixels.len() as int) =~= pixels);
    assert(p.skip(28 + pixels.len() as int) =~= cells);
}

} // verus!
