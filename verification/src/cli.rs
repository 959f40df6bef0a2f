//! The command lines: the program's own flags, and the memory dump of the
//! smoke tool.

use crate::lists;
use crate::text;
use vstd::prelude::*;

verus! {

/// The value of `flag` in `args`: what stands behind it, or what follows
/// `flag=` in one argument; the first of these.
pub open spec fn opt_value(args: Seq<Seq<char>>, flag: Seq<char>) -> Option<Seq<char>>
    decreases args.len(),
{
    if args.len() == 0 {
        None
    } else if args[0] == flag {
        if args.len() > 1 {
            Some(args[1])
        } else {
            None
        }
    } else if text::begins_with(args[0], flag + "="@) {
        Some(args[0].skip(flag.len() as int + 1))
    } else {
        opt_value(args.skip(1), flag)
    }
}

/// The value of `flag`: what stands behind it, or what follows `flag=`.
pub fn parse_opt(args: &Vec<String>, flag: &str) -> (r: Option<String>)
    ensures
        text::opt_view(r) == opt_value(text::texts(args@), flag@),
{
    let ghost all = text::texts(args@);
    let eqp = text::chars_of(text::join2(flag, "=").as_str());
    proof {
        reveal_strlit("=");
        assert(eqp@.len() == flag@.len() + 1);
        assert(all.skip(0) =~= all);
    }
    let mut i: usize = 0;
    while i < args.len()
        invariant
            i <= args@.len(),
            all == text::texts(args@),
            eqp@ == flag@ + "="@,
            eqp@.len() == flag@.len() + 1,
            opt_value(all.skip(i as int), flag@) == opt_value(all, flag@),
        decreases args@.len() - i,
    {
        let ghost rest = all.skip(i as int);
        proof {
            assert(rest[0] == args@[i as int]@);
            assert(rest.skip(1) =~= all.skip(i as int + 1));
        }
        if text::str_eq(args[i].as_str(), flag) {
            return if i + 1 < args.len() {
                proof {
                    assert(rest[1] == args@[i + 1]@);
                }
                Some(args[i + 1].clone())
            } else {
                None
            };
        }
        let a = text::chars_of(args[i].as_str());
        if text::starts_with(&a, &eqp) {
            let tail = text::part(&a, eqp.len(), a.len());
            proof {
                assert(tail@ =~= a@.skip(flag@.len() as int + 1));
            }
            return Some(text::string_of(&tail));
        }
        i = i + 1;
    }
    None
}

/// The process id given with `--pid`; none where that is no number.
pub fn parse_pid(args: &Vec<String>) -> (r: Option<i32>)
    ensures
        r == match opt_value(text::texts(args@), "--pid"@) {
            Some(s) => text::i32_number(s),
            None => None,
        },
{
    match parse_opt(args, "--pid") {
        Some(s) => text::parse_i32(&text::chars_of(s.as_str())),
        None => None,
    }
}

/// Whether `flag` is among the arguments.
fn given(args: &Vec<String>, flag: &str) -> (r: bool)
    ensures
        r == text::texts(args@).contains(flag@),
{
    let ghost all = text::texts(args@);
    let mut i: usize = 0;
    while i < args.len()
        invariant
            i <= args@.len(),
            all == text::texts(args@),
            forall|k: int| 0 <= k < i ==> all[k] != flag@,
        decreases args@.len() - i,
    {
        proof {
            assert(all[i as int] == args@[i as int]@);
        }
        if text::str_eq(args[i].as_str(), flag) {
            return true;
        }
        i = i + 1;
    }
    false
}

/// Whether help is asked for.
pub fn wants_help(args: &Vec<String>) -> (r: bool)
    ensures
        r == (text::texts(args@).contains("--help"@) || text::texts(args@).contains("-h"@)),
{
    given(args, "--help") || given(args, "-h")
}

/// Whether the terminal front-end is asked for.
pub fn wants_tui(args: &Vec<String>) -> (r: bool)
    ensures
        r == text::texts(args@).contains("--tui"@),
{
    given(args, "--tui")
}

/// Which process the smoke tool attaches to.
#[derive(Debug)]
pub enum Whom {
    Pid(i32),
    Name(String),
}

/// A number is a process id, anything else a name.
pub fn attach_target(target: &str) -> (r: Whom)
    ensures
        match text::i32_number(target@) {
            Some(pid) => r == Whom::Pid(pid),
            None => r matches Whom::Name(n) && n@ == target@,
        },
{
    match text::parse_i32(&text::chars_of(target)) {
        Some(pid) => Whom::Pid(pid),
        None => Whom::Name(target.to_owned()),
    }
}

// ---------------------------------------------------------------------------
// The memory dump
// ---------------------------------------------------------------------------

/// Two small hexadecimal digits.
pub open spec fn byte_digits(b: u8) -> Seq<char> {
    text::zero_padded(text::written(b as nat, 16, false), 2)
}

/// The bytes in hexadecimal, each with a space behind it.
pub open spec fn hex_column(bytes: Seq<u8>) -> Seq<char>
    decreases bytes.len(),
{
    if bytes.len() == 0 {
        Seq::empty()
    } else {
        hex_column(bytes.drop_last()) + byte_digits(bytes.last()) + seq![' ']
    }
}

/// The bytes as characters, a dot for each that has none.
pub open spec fn ascii_column(bytes: Seq<u8>) -> Seq<char> {
    Seq::new(
        bytes.len(),
        |i: int|
            if 0x21 <= bytes[i] <= 0x7E {
                bytes[i] as char
            } else {
                '.'
            },
    )
}

/// An address with `0x` and zeros up to twelve digits.
pub open spec fn dump_address(a: nat) -> Seq<char> {
    "0x"@ + text::zero_padded(text::written(a, 16, false), 12)
}

/// A line of the dump.
pub open spec fn dump_line(at: nat, bytes: Seq<u8>) -> Seq<char> {
    dump_address(at) + "  "@ + lists::left_aligned(hex_column(bytes), 48) + " "@ + ascii_column(
        bytes,
    )
}

/// The lines of a dump: sixteen bytes each.
pub open spec fn dump_lines(base: nat, bytes: Seq<u8>) -> Seq<Seq<char>>
    decreases bytes.len(),
{
    if bytes.len() == 0 {
        Seq::empty()
    } else if bytes.len() <= 16 {
        seq![dump_line(base, bytes)]
    } else {
        seq![dump_line(base, bytes.take(16))] + dump_lines(base + 16, bytes.skip(16))
    }
}

/// `n` in small hexadecimal, with zeros up to `width` digits.
fn hex_lower_padded(n: u64, width: usize) -> (r: String)
    ensures
        r@ == text::zero_padded(text::written(n as nat, 16, false), width as nat),
{
    let d = text::write_number(n, 16, false);
    let mut out = String::new();
    let mut i: usize = d.len();
    let ghost start = i;
    while i < width
        invariant
            d@.len() == start,
            start <= i,
            i <= width || i == start,
            out@ =~= Seq::new((i - start) as nat, |k: int| '0'),
        decreases width - i,
    {
        out.push('0');
        i = i + 1;
    }
    let ghost zeros = out@;
    let t = text::string_of(&d);
    out.append(t.as_str());
    proof {
        assert(out@ =~= text::zero_padded(d@, width as nat));
    }
    out
}

/// The line of the bytes `lo..hi` of `buf`, at address `at`.
fn line_of(at: u64, buf: &Vec<u8>, lo: usize, hi: usize) -> (r: String)
    requires
        lo <= hi <= buf@.len(),
    ensures
        r@ == dump_line(at as nat, buf@.subrange(lo as int, hi as int)),
{
    let ghost part = buf@.subrange(lo as int, hi as int);
    let mut hex = String::new();
    let mut ascii = String::new();
    let mut i: usize = lo;
    proof {
        assert(part.take(0) =~= Seq::<u8>::empty());
    }
    while i < hi
        invariant
            lo <= i <= hi,
            hi <= buf@.len(),
            part == buf@.subrange(lo as int, hi as int),
            hex@ =~= hex_column(part.take(i - lo)),
            ascii@ =~= ascii_column(part.take(i - lo)),
        decreases hi - i,
    {
        let b: u8 = buf[i];
        let ghost k = part.take(i - lo + 1);
        proof {
            assert(k.drop_last() =~= part.take(i - lo));
            assert(k.last() == b);
        }
        hex.append(hex_lower_padded(b as u64, 2).as_str());
        hex.push(' ');
        ascii.push(
            if 0x21 <= b && b <= 0x7E {
                b as char
            } else {
                '.'
            },
        );
        proof {
            assert(hex@ =~= hex_column(k));
            assert(ascii@ =~= ascii_column(k));
        }
        i = i + 1;
    }
    proof {
        assert(part.take(i - lo) =~= part);
    }
    let addr = text::join2("0x", hex_lower_padded(at, 12).as_str());
    let head = text::join3(addr.as_str(), "  ", lists::align_left(hex.as_str(), 48).as_str());
    text::join3(head.as_str(), " ", ascii.as_str())
}

/// The lines of a dump of `buf`, which was read from address `base`. The
/// address of the last line is one that a `u64` holds.
pub fn hexdump(base: u64, buf: &Vec<u8>) -> (r: Vec<String>)
    requires
        buf@.len() > 0 ==> base + (buf@.len() - 1) / 16 * 16 <= u64::MAX,
    ensures
        text::texts(r@) == dump_lines(base as nat, buf@),
{
    let mut out: Vec<String> = Vec::new();
    let mut lo: usize = 0;
    proof {
        assert(buf@.skip(0) =~= buf@);
        assert(text::texts(out@) + dump_lines(base as nat, buf@) =~= dump_lines(
            base as nat,
            buf@,
        ));
    }
    while lo < buf.len()
        invariant
            lo <= buf@.len(),
            lo % 16 == 0 || lo == buf@.len(),
            buf@.len() > 0 ==> base + (buf@.len() - 1) / 16 * 16 <= u64::MAX,
            text::texts(out@) + dump_lines((base + lo) as nat, buf@.skip(lo as int)) == dump_lines(
                base as nat,
                buf@,
            ),
        decreases buf@.len() - lo,
    {
        let left: usize = buf.len() - lo;
        let n: usize = if left < 16 {
            left
        } else {
            16
        };
        let ghost rest = buf@.skip(lo as int);
        let ghost before = text::texts(out@);
        assert(lo <= (buf@.len() - 1) / 16 * 16);
        let at: u64 = base + lo as u64;
        let line = line_of(at, buf, lo, lo + n);
        text::push_text(&mut out, line.as_str());
        proof {
            assert(buf@.subrange(lo as int, lo + n) =~= rest.take(n as int));
            assert(rest.skip(n as int) =~= buf@.skip(lo + n));
            if left <= 16 {
                assert(rest.take(n as int) =~= rest);
                assert(rest.skip(n as int) =~= Seq::<u8>::empty());
            }
            assert(before.push(line@) + dump_lines((base + lo + n) as nat, rest.skip(n as int))
                =~= before + dump_lines((base + lo) as nat, rest));
        }
        lo = lo + n;
    }
    proof {
        assert(buf@.skip(lo as int) =~= Seq::<u8>::empty());
        assert(text::texts(out@) + Seq::<Seq<char>>::empty() =~= text::texts(out@));
    }
    out
}

// ---------------------------------------------------------------------------
// Laws
// ---------------------------------------------------------------------------

/// A flag's value is the argument behind it, or what follows its `=`; the first
/// time that the flag is given counts. A flag that is not given has none.
pub proof fn law_flag_values_are_found(
    before: Seq<Seq<char>>,
    flag: Seq<char>,
    value: Seq<char>,
    after: Seq<Seq<char>>,
)
    requires
        forall|k: int|
            0 <= k < before.len() ==> #[trigger] before[k] != flag && !text::begins_with(
                before[k],
                flag + "="@,
            ),
    ensures
        opt_value(before + seq![flag, value] + after, flag) == Some(value),
        opt_value(before + seq![flag + "="@ + value] + after, flag) == Some(value),
        opt_value(before, flag) is None,
    decreases before.len(),
{
    reveal_strlit("=");
    let joint = flag + "="@ + value;
    let p = before + seq![flag, value] + after;
    let q = before + seq![joint] + after;
    if before.len() == 0 {
        assert(p[0] == flag && p[1] == value);
        assert(q[0] == joint);
        assert(joint.len() > flag.len());
        assert(joint.take(flag.len() as int + 1) =~= flag + "="@);
        assert(joint.skip(flag.len() as int + 1) =~= value);
    } else {
        let rest = before.skip(1);
        assert forall|k: int| 0 <= k < rest.len() implies #[trigger] rest[k] != flag
            && !text::begins_with(rest[k], flag + "="@) by {
            assert(rest[k] == before[k + 1]);
        }
        law_flag_values_are_found(rest, flag, value, after);
        assert(p.skip(1) =~= rest + seq![flag, value] + after);
        assert(q.skip(1) =~= rest + seq![joint] + after);
        assert(p[0] == before[0] && q[0] == before[0]);
    }
}

/// A dump shows all bytes, sixteen to a line and the rest on the last one, each
/// line with the address of its first byte.
pub proof fn law_dump_lines_cover_the_bytes(base: nat, bytes: Seq<u8>, i: int)
    ensures
        dump_lines(base, bytes).len() == (bytes.len() + 15) / 16,
        0 <= i < dump_lines(base, bytes).len() ==> dump_lines(base, bytes)[i] == dump_line(
            (base + 16 * i) as nat,
            bytes.subrange(
                16 * i,
                if 16 * i + 16 <= bytes.len() {
                    16 * i + 16
                } else {
                    bytes.len() as int
                },
            ),
        ),
    decreases bytes.len(),
{
    if bytes.len() > 16 {
        let rest = bytes.skip(16);
        law_dump_lines_cover_the_bytes(base + 16, rest, i - 1);
        if i == 0 {
            assert(bytes.take(16) =~= bytes.subrange(0, 16));
        } else if 0 < i < dump_lines(base, bytes).len() {
            let hi = if 16 * i + 16 <= bytes.len() {
                16 * i + 16
            } else {
                bytes.len() as int
            };
            assert(rest.subrange(16 * (i - 1), hi - 16) =~= bytes.subrange(16 * i, hi));
            assert((base + 16 + 16 * (i - 1)) as nat == (base + 16 * i) as nat);
        }
    } else if bytes.len() > 0 {
        assert(bytes.subrange(0, bytes.len() as int) =~= bytes);
    }
}

/// In the text column a printable character stands for itself, and a dot for any
/// other byte.
pub proof fn law_text_column_shows_characters(bytes: Seq<u8>, i: int)
    requires
        0 <= i < bytes.len(),
    ensures
        ascii_column(bytes).len() == bytes.len(),
        0x21 <= bytes[i] <= 0x7E ==> ascii_column(bytes)[i] as u32 == bytes[i] as u32,
        !(0x21 <= bytes[i] <= 0x7E) ==> ascii_column(bytes)[i] == '.',
{
}

} // verus!
