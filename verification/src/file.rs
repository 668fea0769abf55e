//! Output formats: which encoders a render feeds, the extension each file
//! gets, and the command-line footer that the encoders embed.

pub mod bitmap;
pub mod heightfield;
pub mod png;
pub mod ppm;
pub mod xpm;

use vstd::prelude::*;

verus! {

#[allow(non_camel_case_types)]
#[derive(Clone, Copy, PartialEq, Eq, Structural, Debug)]
pub enum FileType {
    bmp,
    ppm,
    xpm,
    heightfield,
    png,
}

#[derive(Clone, Copy, PartialEq, Eq, Structural, Debug)]
pub enum ColorMode {
    Color,
    Monochrome,
}

/// Why an encoder failed: the only failure the encoders surface is a write
/// error from a downstream library.
#[derive(Clone, Copy, PartialEq, Eq, Structural, Debug)]
pub enum WriteError {
    WriterIo,
}

pub open spec fn spec_file_extension(filetype: FileType) -> Seq<char> {
    match filetype {
        FileType::bmp => ".bmp"@,
        FileType::ppm => ".ppm"@,
        FileType::xpm => ".xpm"@,
        FileType::heightfield => ".heightfield"@,
        FileType::png => ".png"@,
    }
}

pub fn get_file_extension<'a>(filetype: &FileType) -> (r: &'a str)
    ensures
        r@ == spec_file_extension(*filetype),
{
    match filetype {
        FileType::bmp => ".bmp",
        FileType::ppm => ".ppm",
        FileType::xpm => ".xpm",
        FileType::heightfield => ".heightfield",
        FileType::png => ".png",
    }
}

/// The arguments past the first, joined with single spaces.
pub open spec fn spec_join_spaces(parts: Seq<Seq<char>>) -> Seq<char>
    decreases parts.len(),
{
    if parts.len() == 0 {
        Seq::empty()
    } else if parts.len() == 1 {
        parts[0]
    } else {
        spec_join_spaces(parts.drop_last()) + seq![' '] + parts.last()
    }
}

/// The footer that the encoders embed: the command line (without the program
/// name) framed by a fixed heading.
pub open spec fn spec_commandline_footer(args: Seq<Seq<char>>) -> Seq<char> {
    if args.len() > 1 {
        "Command line:\n"@ + spec_join_spaces(args.drop_first()) + "\n"@
    } else {
        "Command line:\n\n"@
    }
}

pub fn get_commandline_footer(args: &Vec<String>) -> (r: String)
    ensures
        r@ == spec_commandline_footer(args@.map_values(|s: String| s@)),
{
    if args.len() > 1 {
        let ghost parts = args@.map_values(|s: String| s@).drop_first();
        let mut r = String::new();
        r.append("Command line:\n");
        let mut i: usize = 1;
        while i < args.len()
            invariant
                1 <= i <= args@.len(),
                args@.len() > 1,
                parts == args@.map_values(|s: String| s@).drop_first(),
                r@ == "Command line:\n"@ + spec_join_spaces(parts.take(i - 1)),
            decreases args@.len() - i,
        {
            if i > 1 {
                r.append(" ");
            }
            r.append(args[i].as_str());
            proof {
                reveal_strlit(" ");
                assert(" "@ =~= seq![' ']);
                let k = i - 1;
                assert(args@.map_values(|s: String| s@)[i as int] == args@[i as int]@);
                assert(parts[k as int] == args@[i as int]@);
                assert(parts.take(k + 1).drop_last() =~= parts.take(k as int));
                assert(parts.take(k + 1).last() == args@[i as int]@);
                if k == 0 {
                    assert(spec_join_spaces(parts.take(1)) == parts.take(1)[0]);
                    assert(parts.take(1)[0] == parts[0]);
                }
            }
            i = i + 1;
        }
        r.append("\n");
        proof {
            assert(parts.take(args@.len() - 1) =~= parts);
        }
        r
    } else {
        let mut r = String::new();
        r.append("Command line:\n\n");
        r
    }
}

// ---------------------------------------------------------------------------
// Byte-building helpers shared by the encoders.
// ---------------------------------------------------------------------------

/// The concatenation `f(0) + f(1) + ... + f(n - 1)`.
pub open spec fn concat_upto(f: spec_fn(int) -> Seq<u8>, n: int) -> Seq<u8>
    decreases n,
{
    if n <= 0 {
        Seq::empty()
    } else {
        concat_upto(f, n - 1) + f(n - 1)
    }
}

/// The decimal digits of `n`, most significant first.
pub open spec fn spec_decimal(n: int) -> Seq<u8>
    decreases n,
{
    if n < 10 {
        seq![(48 + if n >= 0 { n } else { 0 }) as u8]
    } else {
        spec_decimal(n / 10).push((48 + n % 10) as u8)
    }
}

pub fn push_decimal(out: &mut Vec<u8>, n: u32)
    ensures
        final(out)@ == old(out)@ + spec_decimal(n as int),
    decreases n,
{
    if n < 10 {
        out.push(48 + n as u8);
        proof {
            assert(final(out)@ =~= old(out)@ + spec_decimal(n as int));
        }
    } else {
        push_decimal(out, n / 10);
        out.push(48 + (n % 10) as u8);
        proof {
            assert(final(out)@ =~= old(out)@ + spec_decimal(n as int));
        }
    }
}

pub fn push_bytes(out: &mut Vec<u8>, s: &[u8])
    ensures
        final(out)@ == old(out)@ + s@,
{
    let n = s.len();
    let mut i: usize = 0;
    while i < n
        invariant
            i <= n,
            n == s@.len(),
            out@ == old(out)@ + s@.take(i as int),
        decreases n - i,
    {
        out.push(s[i]);
        proof {
            assert(old(out)@ + s@.take(i + 1) =~= (old(out)@ + s@.take(i as int)).push(
                s@[i as int],
            ));
        }
        i = i + 1;
    }
    proof {
        assert(s@.take(n as int) =~= s@);
    }
}

/// Appends the UTF-8 bytes of `s`.
pub fn push_str(out: &mut Vec<u8>, s: &str)
    ensures
        final(out)@ == old(out)@ + vstd::utf8::encode_utf8(s@),
{
    push_bytes(out, s.as_bytes());
}

} // verus!
