use vstd::prelude::*;
use crate::text::{decimal, digit_char, decimal_value, char_digit, lemma_decimal_value, lemma_digit_char};

verus! {

/// One-byte control commands exchanged between client and server.
#[derive(Clone, Copy, Debug, PartialEq, Eq, Structural)]
pub enum Command {
    /// ASCII "Start of Text": the client starts sending.
    Upload,
    /// ASCII "End of Text": the client starts receiving.
    Download,
    /// ASCII "End of Transmission": the current transfer is over.
    Finish,
}

/// The byte that stands for a command on the wire.
pub open spec fn command_byte(c: Command) -> u8 {
    match c {
        Command::Upload => 0x02,
        Command::Download => 0x03,
        Command::Finish => 0x04,
    }
}

/// The command that a byte stands for, if any.
pub open spec fn command_of(b: u8) -> Option<Command> {
    if b == 0x02 {
        Some(Command::Upload)
    } else if b == 0x03 {
        Some(Command::Download)
    } else if b == 0x04 {
        Some(Command::Finish)
    } else {
        None
    }
}

/// Law: every command is read back from its byte, and no two commands share a byte.
pub proof fn lemma_command_byte_roundtrip(c: Command, d: Command)
    ensures
        command_of(command_byte(c)) == Some(c),
        command_byte(c) == command_byte(d) ==> c == d,
{
}

/// Law: a byte that stands for a command is that command's byte.
pub proof fn lemma_command_of_byte(b: u8)
    ensures
        command_of(b) matches Some(c) ==> command_byte(c) == b,
{
}

impl Command {
    /// The byte that is sent for this command.
    pub fn to_byte(&self) -> (b: u8)
        ensures
            b == command_byte(*self),
    {
        match self {
            Command::Upload => 0x02,
            Command::Download => 0x03,
            Command::Finish => 0x04,
        }
    }

    /// The command that a received byte stands for, if any.
    pub fn from_byte(b: u8) -> (c: Option<Command>)
        ensures
            c == command_of(b),
    {
        if b == 0x02 {
            Some(Command::Upload)
        } else if b == 0x03 {
            Some(Command::Download)
        } else if b == 0x04 {
            Some(Command::Finish)
        } else {
            None
        }
    }
}

/// Clears the terminal and moves the cursor home.
pub const CLEAR_SCREEN: &'static str = "\x1B[2J\x1B[1;1H";

/// Moves the cursor to the start of the previous line and clears that line.
pub const CLEAR_PREV_LINE: &'static str = "\x1b[0F\x1b[2K";

/// The unit below which `bytesize` writes a plain count of bytes.
pub open spec fn size_unit(binary: bool) -> u64 {
    if binary {
        1024
    } else {
        1000
    }
}

/// The power of the unit that the `k`-th unit prefix stands for: 1024^k in
/// binary units, 1000^k in decimal ones.
pub open spec fn unit_power(binary: bool, k: nat) -> nat
    decreases k,
{
    if k == 0 {
        1
    } else {
        unit_power(binary, (k - 1) as nat) * size_unit(binary) as nat
    }
}

/// The letter of the `k`-th unit prefix, counting from 1: "kMGTPE" in binary
/// units, "KMGTPE" in decimal ones.
pub open spec fn unit_letter(binary: bool, k: nat) -> char {
    if k == 1 {
        if binary {
            'k'
        } else {
            'K'
        }
    } else if k == 2 {
        'M'
    } else if k == 3 {
        'G'
    } else if k == 4 {
        'T'
    } else if k == 5 {
        'P'
    } else {
        'E'
    }
}

/// The text of `w` tenths of the `k`-th unit, such as "5.0 GiB": the whole
/// units, a point, the tenth, a space, the prefix letter, then "iB" in binary
/// units or "B" in decimal ones.
pub open spec fn tenths_text(w: nat, binary: bool, k: nat) -> Seq<char> {
    decimal(w / 10) + seq!['.', digit_char(w % 10), ' ', unit_letter(binary, k)] + (if binary {
        seq!['i', 'B']
    } else {
        seq!['B']
    })
}

/// The distance between two integers.
pub open spec fn distance(a: nat, b: nat) -> nat {
    if a >= b {
        (a - b) as nat
    } else {
        (b - a) as nat
    }
}

/// `t` shows the size `s` with one decimal place: it is `w` tenths of one of
/// the six units, and `w` tenths of that unit are `s` bytes to within half a
/// tenth of the unit, give or take a relative 2^-47 for the rounding of `s`
/// and of one division in binary floating point.
pub open spec fn size_shown(t: Seq<char>, s: nat, binary: bool) -> bool {
    exists|k: nat, w: nat|
        1 <= k <= 6 && t == #[trigger] tenths_text(w, binary, k) && distance(
            w * unit_power(binary, k),
            10 * s,
        ) * 0x8000_0000_0000 <= unit_power(binary, k) * 0x4000_0000_0000 + s
}

/// Law: a text of tenths of a unit is read back in one way only: its unit
/// and its count of tenths are fixed by it.
pub proof fn lemma_tenths_text_reads_back(w: nat, k: nat, v: nat, j: nat, binary: bool)
    requires
        1 <= k <= 6,
        1 <= j <= 6,
        tenths_text(w, binary, k) == tenths_text(v, binary, j),
    ensures
        w == v,
        k == j,
{
    let t = tenths_text(w, binary, k);
    let a = decimal(w / 10);
    let b = decimal(v / 10);
    let sl: int = if binary { 2 } else { 1 };
    assert(t.len() == a.len() + 4 + sl);
    assert(t.len() == b.len() + 4 + sl);
    assert(a.len() == b.len());
    assert(t.take(a.len() as int) =~= a);
    assert(tenths_text(v, binary, j).take(b.len() as int) =~= b);
    lemma_decimal_value(w / 10);
    lemma_decimal_value(v / 10);
    assert(w / 10 == v / 10);
    assert(t[(a.len() + 1) as int] == digit_char(w % 10));
    assert(tenths_text(v, binary, j)[(b.len() + 1) as int] == digit_char(v % 10));
    lemma_digit_char(w % 10);
    lemma_digit_char(v % 10);
    assert(w % 10 == v % 10);
    assert(t[(a.len() + 3) as int] == unit_letter(binary, k));
    assert(tenths_text(v, binary, j)[(b.len() + 3) as int] == unit_letter(binary, j));
}

/// Law: reading a shown size back, as its count of tenths of its unit, gives
/// the size to within half a tenth of that unit (and the floating-point
/// slack of `size_shown`), whichever way the text was come by.
pub proof fn lemma_size_read_back(t: Seq<char>, s: nat, binary: bool, k: nat, w: nat)
    requires
        size_shown(t, s, binary),
        1 <= k <= 6,
        t == tenths_text(w, binary, k),
    ensures
        distance(w * unit_power(binary, k), 10 * s) * 0x8000_0000_0000 <= unit_power(binary, k)
            * 0x4000_0000_0000 + s,
{
    let (j, v) = choose|j: nat, v: nat|
        1 <= j <= 6 && t == #[trigger] tenths_text(v, binary, j) && distance(
            v * unit_power(binary, j),
            10 * s,
        ) * 0x8000_0000_0000 <= unit_power(binary, j) * 0x4000_0000_0000 + s;
    lemma_tenths_text_reads_back(w, k, v, j, binary);
}

/// Law: one text never shows two sizes more than a tenth of its unit apart
/// (give or take the floating-point slack): a size of 1 GiB and one of 5 GiB
/// are never shown alike.
pub proof fn lemma_one_text_one_size(t: Seq<char>, a: nat, b: nat, binary: bool, k: nat, w: nat)
    requires
        size_shown(t, a, binary),
        size_shown(t, b, binary),
        1 <= k <= 6,
        t == tenths_text(w, binary, k),
    ensures
        distance(a, b) * 10 * 0x8000_0000_0000 <= unit_power(binary, k)
            * 0x8000_0000_0000 + a + b,
{
    lemma_size_read_back(t, a, binary, k, w);
    lemma_size_read_back(t, b, binary, k, w);
}

/// Calls `bytesize::to_string`, in binary (1024-based) units such as "1.0 kiB"
/// when `binary`, else in decimal (1000-based) units. Trusted: below one unit
/// the text is the decimal count followed by " B" (the first branch of that
/// function). From one unit up it is `{:.1}` of the count divided by the power
/// of a unit between the first and the sixth, then a space, that unit's prefix
/// letter and "iB" for binary units or "B" otherwise (the second branch): the
/// shown number is the count in that unit, rounded to a tenth, up to the
/// rounding of the count to `f64` and of the division (`size_shown`). Which of
/// two neighbouring units the crate picks near a power of the unit comes from
/// a floating-point logarithm, and is left open.
#[verifier::external_body]
fn bytesize_text(bytes: u64, binary: bool) -> (r: String)
    ensures
        bytes < size_unit(binary) ==> r@ == decimal(bytes as nat) + seq![' ', 'B'],
        bytes >= size_unit(binary) ==> r@.len() >= 2 && r@.last() == 'B' && (r@[r@.len() - 2]
            == 'i') == binary,
        bytes >= size_unit(binary) ==> size_shown(r@, bytes as nat, binary),
{
    bytesize::to_string(bytes, binary)
}

/// Human-readable size of `s` bytes, in binary units: a plain count of bytes
/// below 1024, else `s` in tenths of a binary unit, such as "5.0 GiB".
pub fn fmt_bytes(s: usize) -> (r: String)
    ensures
        s < 1024 ==> r@ == decimal(s as nat) + seq![' ', 'B'],
        s >= 1024 ==> r@.len() >= 2 && r@.last() == 'B' && r@[r@.len() - 2] == 'i',
        s >= 1024 ==> size_shown(r@, s as nat, true),
{
    bytesize_text(s as u64, true)
}

/// Human-readable size of `s` bytes in decimal units, as `bytesize::ByteSize`
/// displays it: a plain count below 1000, else `s` in tenths of a decimal
/// unit, such as "5.0 MB".
pub fn fmt_size(s: u64) -> (r: String)
    ensures
        s < 1000 ==> r@ == decimal(s as nat) + seq![' ', 'B'],
        s >= 1000 ==> r@.len() >= 2 && r@.last() == 'B' && r@[r@.len() - 2] != 'i',
        s >= 1000 ==> size_shown(r@, s as nat, false),
{
    bytesize_text(s, false)
}

/// Bytes per second of `len` bytes moved in `nanos` nanoseconds, rounded down.
pub open spec fn rate(len: nat, nanos: nat) -> nat
    recommends
        nanos > 0,
{
    (len * 1_000_000_000) / nanos
}

/// Human-readable speed of `s` bytes moved in `nanos` nanoseconds, such as
/// "1.0 MiB/s": `fmt_bytes` of the rate, followed by "/s". The rate is taken
/// as a `usize`, wrapping as the cast does.
pub fn fmt_speed(s: usize, nanos: u128) -> (r: String)
    requires
        nanos > 0,
    ensures
        exists|b: String|
            call_ensures(fmt_bytes, (rate(s as nat, nanos as nat) as usize,), b) && r@ == b@
                + seq!['/', 's'],
        (rate(s as nat, nanos as nat) as usize) < 1024 ==> r@ == decimal(
            rate(s as nat, nanos as nat) as usize as nat,
        ) + seq![' ', 'B', '/', 's'],
{
    assert((s as u128) * 1_000_000_000u128 <= 0xffff_ffff_ffff_ffff * 1_000_000_000u128)
        by (nonlinear_arith);
    let speed: u128 = (s as u128) * 1_000_000_000u128 / nanos;
    let mut r = fmt_bytes(speed as usize);
    let ghost b = r;
    proof {
        reveal_strlit("/s");
    }
    r.append("/s");
    proof {
        assert(r@ == b@ + seq!['/', 's']);
    }
    r
}

/// Bytes per second of `len` bytes moved in `nanos` nanoseconds, rounded down and
/// taken as a `u64`, wrapping as the cast does.
pub fn calc_speed(len: usize, nanos: u128) -> (r: u64)
    requires
        nanos > 0,
    ensures
        r == rate(len as nat, nanos as nat) as u64,
{
    assert((len as u128) * 1_000_000_000u128 <= 0xffff_ffff_ffff_ffff * 1_000_000_000u128)
        by (nonlinear_arith);
    ((len as u128) * 1_000_000_000u128 / nanos) as u64
}

} // verus!
