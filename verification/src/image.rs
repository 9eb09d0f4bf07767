//! Framing of images as kitty graphics commands.
//!
//! An image travels as base64 text, cut into chunks of at most
//! `CHUNK_SIZE` bytes; each chunk is sent in a command of its own whose
//! control data ends with `m=1`, but for the last one, which ends with `m=0`.
use vstd::prelude::*;
use vstd::utf8::encode_utf8;
use vstd::slice::slice_subrange;
use base64::Engine;
use base64::engine::general_purpose::STANDARD;

verus! {

/// The number of bytes of base64 text that one command carries at most.
pub const CHUNK_SIZE: usize = 4096;

/// The byte that ends the control data of a command: `;`.
pub const IMAGE_SEPARATE: u8 = 0x3b;

/// The byte between two entries of the control data: `,`.
pub const IMAGE_CONTROL_SPLIT: u8 = 0x2c;

/// The byte between the key and the value of an entry: `=`.
pub const IMAGE_KEY_VALUE: u8 = 0x3d;

/// The bytes that open a command: `ESC _ G`.
pub open spec fn image_begin() -> Seq<u8> {
    seq![0x1bu8, 0x5fu8, 0x47u8]
}

/// The bytes that close a command: `ESC \`.
pub open spec fn image_end() -> Seq<u8> {
    seq![0x1bu8, 0x5cu8]
}

/// The control entries of a command, each a key and its value as text.
pub open spec fn control_view(cmd: Seq<(char, &str)>) -> Seq<(char, Seq<char>)> {
    cmd.map_values(|e: (char, &str)| (e.0, e.1@))
}

/// The UTF-8 bytes of `key=value`.
pub open spec fn entry_bytes(entry: (char, Seq<char>)) -> Seq<u8> {
    encode_utf8(seq![entry.0]) + seq![IMAGE_KEY_VALUE] + encode_utf8(entry.1)
}

/// The UTF-8 bytes of the entries, joined by `,`.
pub open spec fn control_bytes(cmd: Seq<(char, Seq<char>)>) -> Seq<u8>
    decreases cmd.len(),
{
    if cmd.len() == 0 {
        seq![]
    } else if cmd.len() == 1 {
        entry_bytes(cmd[0])
    } else {
        control_bytes(cmd.drop_last()) + seq![IMAGE_CONTROL_SPLIT] + entry_bytes(cmd.last())
    }
}

/// A whole command: `ESC _ G`, the control data, `;`, the payload, `ESC \`.
pub open spec fn gr_command(cmd: Seq<(char, Seq<char>)>, payload: Seq<u8>) -> Seq<u8> {
    image_begin() + control_bytes(cmd) + seq![IMAGE_SEPARATE] + payload + image_end()
}

/// Appends the bytes of `src` to `out`.
fn append_bytes(out: &mut Vec<u8>, src: &[u8])
    ensures
        final(out)@ == old(out)@ + src@,
{
    let mut i: usize = 0;
    while i < src.len()
        invariant
            i <= src@.len(),
            out@ == old(out)@ + src@.subrange(0, i as int),
        decreases src@.len() - i,
    {
        out.push(src[i]);
        i += 1;
        assert(out@ =~= old(out)@ + src@.subrange(0, i as int));
    }
    assert(src@.subrange(0, src@.len() as int) =~= src@);
}

/// The UTF-8 encoding of one character, as `char::encode_utf8` writes it.
pub fn encode_char(c: char) -> (bytes: Vec<u8>)
    ensures
        bytes@ == encode_utf8(seq![c]),
{
    let v: u32 = c as u32;
    proof {
        vstd::utf8::char_is_scalar(c);
        reveal_with_fuel(encode_utf8, 2);
        assert(seq![c].drop_first() =~= Seq::<char>::empty());
        assert(seq![c][0] == c);
    }
    if v <= 0x7F {
        let r = vec![(v & 0x7F) as u8];
        assert(r@ =~= encode_utf8(seq![c]));
        r
    } else if v <= 0x7FF {
        let r = vec![0xC0 | ((v >> 6) & 0x1F) as u8, 0x80 | (v & 0x3F) as u8];
        assert(r@ =~= encode_utf8(seq![c]));
        r
    } else if v <= 0xFFFF {
        let r = vec![
            0xE0 | ((v >> 12) & 0x0F) as u8,
            0x80 | ((v >> 6) & 0x3F) as u8,
            0x80 | (v & 0x3F) as u8,
        ];
        assert(r@ =~= encode_utf8(seq![c]));
        r
    } else {
        let r = vec![
            0xF0 | ((v >> 18) & 0x7) as u8,
            0x80 | ((v >> 12) & 0x3F) as u8,
            0x80 | ((v >> 6) & 0x3F) as u8,
            0x80 | (v & 0x3F) as u8,
        ];
        assert(r@ =~= encode_utf8(seq![c]));
        r
    }
}

/// Builds one graphics command: `ESC _ G`, then the entries of `cmd` written
/// `key=value` and joined by `,`, then `;`, the payload and `ESC \`.
pub fn serialize_gr_command(cmd: &Vec<(char, &str)>, payload: &[u8]) -> (bytes: Vec<u8>)
    ensures
        bytes@ == gr_command(control_view(cmd@), payload@),
{
    let ghost ctl = control_view(cmd@);
    let mut result: Vec<u8> = Vec::new();
    result.push(0x1b);
    result.push(0x5f);
    result.push(0x47);
    let mut i: usize = 0;
    while i < cmd.len()
        invariant
            i <= cmd@.len(),
            ctl == control_view(cmd@),
            result@ == image_begin() + control_bytes(ctl.take(i as int)),
        decreases cmd@.len() - i,
    {
        let ghost before = result@;
        if i > 0 {
            result.push(IMAGE_CONTROL_SPLIT);
        }
        let entry = cmd[i];
        let key_bytes = encode_char(entry.0);
        append_bytes(&mut result, key_bytes.as_slice());
        result.push(IMAGE_KEY_VALUE);
        append_bytes(&mut result, entry.1.as_bytes());
        proof {
            let next = ctl.take(i + 1);
            assert(next.drop_last() =~= ctl.take(i as int));
            assert(next.last() == (entry.0, entry.1@));
            if i == 0 {
                assert(result@ =~= image_begin() + control_bytes(next));
            } else {
                assert(result@ =~= before + seq![IMAGE_CONTROL_SPLIT] + entry_bytes(next.last()));
            }
        }
        i += 1;
    }
    assert(ctl.take(cmd@.len() as int) =~= ctl);
    result.push(IMAGE_SEPARATE);
    append_bytes(&mut result, payload);
    result.push(0x1b);
    result.push(0x5c);
    assert(result@ =~= gr_command(ctl, payload@));
    result
}


/// The character of the standard base64 alphabet (RFC 4648) for a six-bit
/// value: `A`-`Z`, `a`-`z`, `0`-`9`, `+`, `/`.
pub open spec fn base64_char(v: u8) -> u8 {
    if v < 26 {
        (v + 65) as u8
    } else if v < 52 {
        (v - 26 + 97) as u8
    } else if v < 62 {
        (v - 52 + 48) as u8
    } else if v == 62 {
        43u8
    } else {
        47u8
    }
}

/// The four characters that spell the 24 bits of the bytes `a`, `b`, `c`,
/// six bits each, the highest first.
pub open spec fn base64_quad(a: u8, b: u8, c: u8) -> Seq<u8> {
    seq![
        base64_char(a >> 2),
        base64_char(((a & 3) << 4) | (b >> 4)),
        base64_char(((b & 15) << 2) | (c >> 6)),
        base64_char(c & 63),
    ]
}

/// The standard base64 text (RFC 4648 alphabet, with `=` padding) of `data`,
/// as `base64::engine::general_purpose::STANDARD` writes it: each group of
/// three bytes becomes four characters; a last group of one byte becomes two
/// characters and `==`, one of two bytes three characters and `=`.
pub open spec fn base64_standard(data: Seq<u8>) -> Seq<u8>
    decreases data.len(),
{
    if data.len() == 0 {
        seq![]
    } else if data.len() == 1 {
        base64_quad(data[0], 0, 0).take(2) + seq![61u8, 61u8]
    } else if data.len() == 2 {
        base64_quad(data[0], data[1], 0).take(3) + seq![61u8]
    } else {
        base64_quad(data[0], data[1], data[2]) + base64_standard(data.skip(3))
    }
}

/// The six-bit value that a character of the standard alphabet stands for,
/// and -1 for any other byte.
pub open spec fn sextet_value(ch: u8) -> int {
    if 65 <= ch <= 90 {
        ch - 65
    } else if 97 <= ch <= 122 {
        ch - 97 + 26
    } else if 48 <= ch <= 57 {
        ch - 48 + 52
    } else if ch == 43 {
        62
    } else if ch == 47 {
        63
    } else {
        -1
    }
}

proof fn lemma_char_value(v: u8)
    requires
        v < 64,
    ensures
        sextet_value(base64_char(v)) == v,
{
}

proof fn lemma_quad_bits(a: u8, b: u8, c: u8)
    ensures
        (a >> 2) < 64,
        (((a & 3) << 4) | (b >> 4)) < 64,
        (((b & 15) << 2) | (c >> 6)) < 64,
        (c & 63) < 64,
        (a >> 2) as int * 262144 + (((a & 3) << 4) | (b >> 4)) as int * 4096 + (((b & 15) << 2) | (c
            >> 6)) as int * 64 + (c & 63) as int == a as int * 65536 + b as int * 256 + c as int,
        c == 0 ==> (c & 63) == 0,
        b == 0 && c == 0 ==> (((b & 15) << 2) | (c >> 6)) == 0,
{
    assert((a >> 2) < 64) by (bit_vector);
    assert((((a & 3) << 4) | (b >> 4)) < 64) by (bit_vector);
    assert((((b & 15) << 2) | (c >> 6)) < 64) by (bit_vector);
    assert((c & 63) < 64) by (bit_vector);
    assert(c == 0 ==> (c & 63) == 0) by (bit_vector);
    assert(b == 0 && c == 0 ==> (((b & 15) << 2) | (c >> 6)) == 0) by (bit_vector);
    assert((a >> 2) as u32 * 262144 + (((a & 3) << 4) | (b >> 4)) as u32 * 4096 + (((b & 15) << 2)
        | (c >> 6)) as u32 * 64 + (c & 63) as u32 == a as u32 * 65536 + b as u32 * 256 + c as u32)
        by (bit_vector);
}

/// The four characters of a group are in the alphabet and, read as six-bit
/// values, spell the 24 bits of the group's bytes.
proof fn lemma_quad_spells(a: u8, b: u8, c: u8)
    ensures
        ({
            let q = base64_quad(a, b, c);
            &&& q.len() == 4
            &&& forall|k: int| 0 <= k < 4 ==> sextet_value(#[trigger] q[k]) >= 0
            &&& sextet_value(q[0]) * 262144 + sextet_value(q[1]) * 4096 + sextet_value(q[2]) * 64
                + sextet_value(q[3]) == a as int * 65536 + b as int * 256 + c as int
            &&& c == 0 ==> sextet_value(q[3]) == 0
            &&& b == 0 && c == 0 ==> sextet_value(q[2]) == 0
        }),
{
    lemma_quad_bits(a, b, c);
    lemma_char_value(a >> 2);
    lemma_char_value(((a & 3) << 4) | (b >> 4));
    lemma_char_value(((b & 15) << 2) | (c >> 6));
    lemma_char_value(c & 63);
}

/// What the standard base64 text of `data` is, read back: its length is
/// four characters per started group of three bytes; for every full group,
/// its four characters are in the alphabet and, as six-bit values, spell the
/// group's 24 bits; a last group of one byte is two characters that spell
/// the byte and four zero bits, then `==`; one of two bytes is three
/// characters that spell the bytes and two zero bits, then `=`.
pub proof fn lemma_base64_standard(data: Seq<u8>)
    ensures
        ({
            let text = base64_standard(data);
            let n = data.len();
            let t = text.len();
            &&& t == base64_len(n)
            &&& forall|i: int|
                0 <= i < n / 3 ==> {
                    &&& sextet_value(#[trigger] text[4 * i]) >= 0
                    &&& sextet_value(text[4 * i + 1]) >= 0
                    &&& sextet_value(text[4 * i + 2]) >= 0
                    &&& sextet_value(text[4 * i + 3]) >= 0
                    &&& sextet_value(text[4 * i]) * 262144 + sextet_value(text[4 * i + 1]) * 4096
                        + sextet_value(text[4 * i + 2]) * 64 + sextet_value(text[4 * i + 3])
                        == data[3 * i] as int * 65536 + data[3 * i + 1] as int * 256 + data[3 * i
                        + 2] as int
                }
            &&& n % 3 == 1 ==> {
                &&& text[t - 2] == 61u8 && text[t - 1] == 61u8
                &&& sextet_value(text[t - 4]) >= 0 && sextet_value(text[t - 3]) >= 0
                &&& sextet_value(text[t - 4]) * 64 + sextet_value(text[t - 3]) == data[n - 1] as int
                    * 16
            }
            &&& n % 3 == 2 ==> {
                &&& text[t - 1] == 61u8
                &&& sextet_value(text[t - 4]) >= 0 && sextet_value(text[t - 3]) >= 0
                    && sextet_value(text[t - 2]) >= 0
                &&& sextet_value(text[t - 4]) * 4096 + sextet_value(text[t - 3]) * 64
                    + sextet_value(text[t - 2]) == (data[n - 2] as int * 256 + data[n - 1] as int) * 4
            }
        }),
    decreases data.len(),
{
    let text = base64_standard(data);
    let n = data.len();
    if n == 0 {
    } else if n == 1 {
        lemma_quad_spells(data[0], 0, 0);
    } else if n == 2 {
        lemma_quad_spells(data[0], data[1], 0);
    } else {
        let rest = data.skip(3);
        lemma_base64_standard(rest);
        lemma_quad_spells(data[0], data[1], data[2]);
        let q = base64_quad(data[0], data[1], data[2]);
        let rt = base64_standard(rest);
        assert(text == q + rt);
        assert forall|k: int| 0 <= k < rt.len() implies #[trigger] text[k + 4] == rt[k] by {}
        assert forall|k: int| 0 <= k < rest.len() implies #[trigger] data[k + 3] == rest[k] by {}
        assert forall|i: int| 0 <= i < n / 3 implies {
            &&& sextet_value(#[trigger] text[4 * i]) >= 0
            &&& sextet_value(text[4 * i + 1]) >= 0
            &&& sextet_value(text[4 * i + 2]) >= 0
            &&& sextet_value(text[4 * i + 3]) >= 0
            &&& sextet_value(text[4 * i]) * 262144 + sextet_value(text[4 * i + 1]) * 4096
                + sextet_value(text[4 * i + 2]) * 64 + sextet_value(text[4 * i + 3])
                == data[3 * i] as int * 65536 + data[3 * i + 1] as int * 256 + data[3 * i + 2] as int
        } by {
            if i == 0 {
                assert(text[0] == q[0] && text[1] == q[1] && text[2] == q[2] && text[3] == q[3]);
            } else {
                let j = i - 1;
                assert(0 <= j < rest.len() / 3);
                assert(text[4 * i] == rt[4 * j]);
                assert(text[4 * i + 1] == rt[4 * j + 1]);
                assert(text[4 * i + 2] == rt[4 * j + 2]);
                assert(text[4 * i + 3] == rt[4 * j + 3]);
                assert(data[3 * i] == rest[3 * j]);
                assert(data[3 * i + 1] == rest[3 * j + 1]);
                assert(data[3 * i + 2] == rest[3 * j + 2]);
            }
        }
        let t = text.len();
        let rl = rt.len();
        if n % 3 == 1 {
            assert(text[t - 1] == rt[rl - 1] && text[t - 2] == rt[rl - 2]);
            assert(text[t - 3] == rt[rl - 3] && text[t - 4] == rt[rl - 4]);
            assert(data[n - 1] == rest[rest.len() - 1]);
        }
        if n % 3 == 2 {
            assert(text[t - 1] == rt[rl - 1] && text[t - 2] == rt[rl - 2]);
            assert(text[t - 3] == rt[rl - 3] && text[t - 4] == rt[rl - 4]);
            assert(data[n - 1] == rest[rest.len() - 1] && data[n - 2] == rest[rest.len() - 2]);
        }
    }
}

/// The length of the padded base64 text of `n` bytes: four bytes for each
/// started group of three.
pub open spec fn base64_len(n: nat) -> nat {
    if n % 3 == 0 {
        (n / 3) * 4
    } else {
        (n / 3) * 4 + 4
    }
}

/// Calls `STANDARD.encode` of the base64 crate (`Engine::encode`) and hands
/// back the bytes of the text: the standard alphabet with `=` padding, as the
/// crate's `STANDARD` engine is configured. The length is the one the crate
/// computes with `encoded_len` before it writes a buffer of exactly that
/// size. The crate panics where that length does not fit a `usize`;
/// `requires` leaves those inputs out.
#[verifier::external_body]
fn encode_base64(data: &[u8]) -> (text: Vec<u8>)
    requires
        base64_len(data@.len()) <= usize::MAX,
    ensures
        text@ == base64_standard(data@),
        text@.len() == base64_len(data@.len()),
{
    STANDARD.encode(data).into_bytes()
}

/// The number of chunks of `CHUNK_SIZE` bytes that `n` bytes are cut into.
pub open spec fn chunk_count(n: nat) -> nat {
    if n % 4096 == 0 {
        n / 4096
    } else {
        n / 4096 + 1
    }
}

/// The `i`-th chunk of `text`: `CHUNK_SIZE` bytes, the last one possibly fewer.
pub open spec fn chunk_at(text: Seq<u8>, i: int) -> Seq<u8> {
    let start = 4096 * i;
    let end = if 4096 * (i + 1) <= text.len() { 4096 * (i + 1) } else { text.len() as int };
    text.subrange(start, end)
}

/// The value of the `m` key of the `i`-th of `count` commands: `0` for the
/// last one, `1` for the others.
pub open spec fn more_flag(i: int, count: nat) -> Seq<char> {
    if i == count - 1 {
        seq!['0']
    } else {
        seq!['1']
    }
}

/// The commands that carry `text` in chunks: the `i`-th holds the entries of
/// `cmd`, then `m` with its flag, and the `i`-th chunk as payload.
pub open spec fn chunked_commands(cmd: Seq<(char, Seq<char>)>, text: Seq<u8>) -> Seq<Seq<u8>> {
    let count = chunk_count(text.len());
    Seq::new(
        count,
        |i: int| gr_command(cmd.push(('m', more_flag(i, count))), chunk_at(text, i)),
    )
}

/// The commands that carry already encoded text, in the order in which they
/// are written. `cmd` is lent for the duration and handed back as it came.
pub fn chunk_commands(cmd: &mut Vec<(char, &str)>, text: &[u8]) -> (frames: Vec<Vec<u8>>)
    ensures
        final(cmd)@ == old(cmd)@,
        frames@.len() == chunk_count(text@.len()),
        forall|i: int|
            0 <= i < frames@.len() ==> #[trigger] frames@[i]@ == chunked_commands(
                control_view(old(cmd)@),
                text@,
            )[i],
{
    let ghost spec_frames = chunked_commands(control_view(old(cmd)@), text@);
    let len = text.len();
    let count: usize = if len % CHUNK_SIZE == 0 {
        len / CHUNK_SIZE
    } else {
        len / CHUNK_SIZE + 1
    };
    let mut frames: Vec<Vec<u8>> = Vec::new();
    let mut i: usize = 0;
    let mut start: usize = 0;
    while i < count
        invariant
            len == text@.len(),
            count == chunk_count(len as nat),
            i <= count,
            i < count ==> start == 4096 * i,
            cmd@ == old(cmd)@,
            spec_frames == chunked_commands(control_view(old(cmd)@), text@),
            frames@.len() == i,
            forall|j: int| 0 <= j < i ==> #[trigger] frames@[j]@ == spec_frames[j],
        decreases count - i,
    {
        let end: usize = if len - start > CHUNK_SIZE {
            start + CHUNK_SIZE
        } else {
            len
        };
        let chunk = slice_subrange(text, start, end);
        let flag: &str = if i == count - 1 {
            "0"
        } else {
            "1"
        };
        proof {
            reveal_strlit("0");
            reveal_strlit("1");
            assert(flag@ =~= more_flag(i as int, count as nat));
        }
        let ghost before = cmd@;
        cmd.push(('m', flag));
        let frame = serialize_gr_command(cmd, chunk);
        proof {
            assert(control_view(cmd@) =~= control_view(before).push(
                ('m', more_flag(i as int, count as nat)),
            ));
            assert(chunk@ =~= chunk_at(text@, i as int));
        }
        cmd.pop();
        frames.push(frame);
        proof {
            assert(cmd@ =~= old(cmd)@);
        }
        i += 1;
        if i < count {
            start = end;
        }
    }
    frames
}

/// Frames `data` for the terminal: its standard base64 text, cut into
/// chunks, each in a command that holds the entries of `cmd` and `m`.
/// The commands come back in the order in which they are to be written.
fn write_chunked(cmd: &mut Vec<(char, &str)>, data: &[u8]) -> (frames: Vec<Vec<u8>>)
    requires
        base64_len(data@.len()) <= usize::MAX,
    ensures
        final(cmd)@ == old(cmd)@,
        frames@.len() == chunk_count(base64_len(data@.len())),
        forall|i: int|
            0 <= i < frames@.len() ==> #[trigger] frames@[i]@ == chunked_commands(
                control_view(old(cmd)@),
                base64_standard(data@),
            )[i],
{
    let text = encode_base64(data);
    chunk_commands(cmd, text.as_slice())
}

/// The control entries with which an image is shown: transmit and display
/// (`a=T`), PNG data (`f=100`), and leave the cursor where it is (`C=1`).
pub open spec fn display_control() -> Seq<(char, Seq<char>)> {
    seq![('a', seq!['T']), ('f', seq!['1', '0', '0']), ('C', seq!['1'])]
}

/// The commands that show the PNG image `data` at the cursor, in the order
/// in which they are to be written to the terminal.
pub fn display_img(data: &[u8]) -> (frames: Vec<Vec<u8>>)
    requires
        base64_len(data@.len()) <= usize::MAX,
    ensures
        frames@.len() == chunk_count(base64_len(data@.len())),
        forall|i: int|
            0 <= i < frames@.len() ==> #[trigger] frames@[i]@ == chunked_commands(
                display_control(),
                base64_standard(data@),
            )[i],
{
    let mut cmd: Vec<(char, &str)> = vec![('a', "T"), ('f', "100"), ('C', "1")];
    proof {
        reveal_strlit("T");
        reveal_strlit("100");
        reveal_strlit("1");
        assert("T"@ =~= seq!['T']);
        assert("100"@ =~= seq!['1', '0', '0']);
        assert("1"@ =~= seq!['1']);
        assert(control_view(cmd@) =~= display_control());
    }
    write_chunked(&mut cmd, data)
}

/// The first `k` chunks of `text`, put back together.
pub open spec fn joined_chunks(text: Seq<u8>, k: nat) -> Seq<u8>
    decreases k,
{
    if k == 0 {
        seq![]
    } else {
        joined_chunks(text, (k - 1) as nat) + chunk_at(text, k - 1)
    }
}

proof fn lemma_joined_prefix(text: Seq<u8>, k: nat)
    requires
        k <= chunk_count(text.len()),
    ensures
        joined_chunks(text, k) == text.subrange(
            0,
            if 4096 * k <= text.len() { (4096 * k) as int } else { text.len() as int },
        ),
    decreases k,
{
    if k == 0 {
        assert(text.subrange(0, 0) =~= Seq::<u8>::empty());
    } else {
        lemma_joined_prefix(text, (k - 1) as nat);
        assert(4096 * (k - 1) < text.len());
        assert(joined_chunks(text, k) =~= text.subrange(
            0,
            if 4096 * k <= text.len() { (4096 * k) as int } else { text.len() as int },
        ));
    }
}

/// Cutting text into chunks loses nothing and adds nothing: the chunks, put
/// back together in order, are the text, and each holds between one and
/// `CHUNK_SIZE` bytes.
pub proof fn lemma_chunks_cover(text: Seq<u8>)
    ensures
        joined_chunks(text, chunk_count(text.len())) == text,
        forall|i: int|
            0 <= i < chunk_count(text.len()) ==> 0 < (#[trigger] chunk_at(text, i)).len() <= 4096,
{
    let count = chunk_count(text.len());
    lemma_joined_prefix(text, count);
    assert(4096 * count >= text.len());
    assert(text.subrange(0, text.len() as int) =~= text);
    assert forall|i: int| 0 <= i < count implies 0 < (#[trigger] chunk_at(text, i)).len() <= 4096 by {
        assert(4096 * i < text.len());
    }
}

/// Only the last command of an image says that no more data follows: the
/// `m` flag is `0` exactly on the last of the commands.
pub proof fn lemma_last_flag(text: Seq<u8>, i: int)
    requires
        0 <= i < chunk_count(text.len()),
    ensures
        more_flag(i, chunk_count(text.len())) == seq!['0'] <==> i == chunk_count(text.len()) - 1,
{
    if i != chunk_count(text.len()) - 1 {
        assert(seq!['1'][0] != seq!['0'][0]);
    }
}

/// A command carries its payload intact: it opens with `ESC _ G`, and its
/// last bytes are the payload followed by `ESC \`.
pub proof fn lemma_command_carries_payload(cmd: Seq<(char, Seq<char>)>, payload: Seq<u8>)
    ensures
        ({
            let bytes = gr_command(cmd, payload);
            &&& bytes.subrange(0, 3) == image_begin()
            &&& bytes.subrange(bytes.len() - payload.len() - 2, bytes.len() - 2) == payload
            &&& bytes.subrange(bytes.len() - 2, bytes.len() as int) == image_end()
        }),
{
    let bytes = gr_command(cmd, payload);
    assert(bytes.subrange(0, 3) =~= image_begin());
    assert(bytes.subrange(bytes.len() - payload.len() - 2, bytes.len() - 2) =~= payload);
    assert(bytes.subrange(bytes.len() - 2, bytes.len() as int) =~= image_end());
}

/// The text of an entry: the key, `=`, and the value.
pub open spec fn entry_text(entry: (char, Seq<char>)) -> Seq<char> {
    seq![entry.0, '='] + entry.1
}

/// The text of the control data: the entries joined by `,`.
pub open spec fn control_text(cmd: Seq<(char, Seq<char>)>) -> Seq<char>
    decreases cmd.len(),
{
    if cmd.len() == 0 {
        seq![]
    } else if cmd.len() == 1 {
        entry_text(cmd[0])
    } else {
        control_text(cmd.drop_last()) + seq![','] + entry_text(cmd.last())
    }
}

proof fn lemma_encode_utf8_append(a: Seq<char>, b: Seq<char>)
    ensures
        encode_utf8(a + b) == encode_utf8(a) + encode_utf8(b),
    decreases a.len(),
{
    if a.len() == 0 {
        assert(a + b =~= b);
    } else {
        lemma_encode_utf8_append(a.drop_first(), b);
        assert((a + b).drop_first() =~= a.drop_first() + b);
        assert(encode_utf8(a + b) =~= encode_utf8(a) + encode_utf8(b));
    }
}

proof fn lemma_encode_ascii(c: char)
    requires
        c == '=' || c == ',',
    ensures
        encode_utf8(seq![c]) == seq![c as u8],
{
    reveal_with_fuel(encode_utf8, 2);
    assert(seq![c].drop_first() =~= Seq::<char>::empty());
    let v = c as u32;
    assert(v == 0x3d || v == 0x2c);
    assert(v <= 0x7f ==> (v & 0x7f) == v) by (bit_vector);
    assert(encode_utf8(seq![c]) =~= seq![c as u8]);
}

/// The control data of a command is the UTF-8 encoding of its text: each
/// entry written as `key=value`, the entries joined by `,`.
pub proof fn lemma_control_is_text(cmd: Seq<(char, Seq<char>)>)
    ensures
        control_bytes(cmd) == encode_utf8(control_text(cmd)),
    decreases cmd.len(),
{
    lemma_encode_ascii('=');
    lemma_encode_ascii(',');
    if cmd.len() > 0 {
        let e = cmd.last();
        assert(entry_text(e) == seq![e.0] + seq!['='] + e.1) by {
            assert(seq![e.0, '='] =~= seq![e.0] + seq!['=']);
        }
        lemma_encode_utf8_append(seq![e.0] + seq!['='], e.1);
        lemma_encode_utf8_append(seq![e.0], seq!['=']);
        assert(encode_utf8(entry_text(e)) == entry_bytes(e));
        if cmd.len() > 1 {
            lemma_control_is_text(cmd.drop_last());
            let front = control_text(cmd.drop_last());
            lemma_encode_utf8_append(front + seq![','], entry_text(e));
            lemma_encode_utf8_append(front, seq![',']);
        } else {
            assert(cmd[0] == e);
        }
    }
}

} // verus!
