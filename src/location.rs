use vstd::prelude::*;
use vstd::string::StringSliceAdditionalSpecFns;

verus! {

/// A location inside a string.
///
/// Locations are 1 indexed, the first character on the first line being on
/// line 1 column 1.
#[derive(Clone, Copy, Debug)]
pub struct Location {
    pub line: usize,
    pub column: usize,
}

/// A byte that begins a UTF-8 encoded character (that is, no continuation byte).
pub open spec fn is_char_start(b: u8) -> bool {
    !(0x80 <= b && b < 0xC0)
}

/// The number of line feeds in `s`.
pub open spec fn newlines_in(s: Seq<u8>) -> nat
    decreases s.len(),
{
    if s.len() == 0 {
        0
    } else {
        newlines_in(s.drop_last()) + if s.last() == 10u8 { 1nat } else { 0nat }
    }
}

/// The number of characters of `s` that follow its last line feed.
pub open spec fn chars_since_newline(s: Seq<u8>) -> nat
    decreases s.len(),
{
    if s.len() == 0 {
        0
    } else if s.last() == 10u8 {
        0
    } else {
        chars_since_newline(s.drop_last()) + if is_char_start(s.last()) { 1nat } else { 0nat }
    }
}

proof fn lemma_newlines_bounded(s: Seq<u8>)
    ensures
        newlines_in(s) <= s.len(),
        chars_since_newline(s) <= s.len(),
    decreases s.len(),
{
    if s.len() > 0 {
        lemma_newlines_bounded(s.drop_last());
    }
}

impl Location {
    /// Returns the location of a substring in the larger string, where the
    /// substring is a suffix of `s`: the position of its first byte.
    pub fn of_in(substr: &str, s: &str) -> (r: Self)
        requires
            substr.spec_bytes().len() <= s.spec_bytes().len(),
            s.spec_bytes().len() < usize::MAX,
        ensures
            ({
                let b = s.spec_bytes();
                let offset = b.len() - substr.spec_bytes().len();
                &&& r.line == 1 + newlines_in(b.take(offset))
                &&& r.column == 1 + chars_since_newline(b.take(offset))
            }),
    {
        let bytes = s.as_bytes();
        let offset: usize = s.len() - substr.len();
        let mut line: usize = 0;
        let mut column: usize = 0;
        let mut i: usize = 0;
        while i < offset
            invariant
                bytes@ == s.spec_bytes(),
                offset == bytes@.len() - substr.spec_bytes().len(),
                offset <= bytes@.len() < usize::MAX,
                i <= offset,
                line == newlines_in(bytes@.take(i as int)),
                column == chars_since_newline(bytes@.take(i as int)),
            decreases offset - i,
        {
            proof {
                lemma_newlines_bounded(bytes@.take(i as int));
                assert(bytes@.take(i + 1).drop_last() == bytes@.take(i as int));
            }
            let c = bytes[i];
            if c == 10u8 {
                line = line + 1;
                column = 0;
            } else if !(0x80u8 <= c && c < 0xC0u8) {
                column = column + 1;
            }
            i = i + 1;
        }
        proof {
            lemma_newlines_bounded(bytes@.take(i as int));
        }
        Location { line: line + 1, column: column + 1 }
    }
}

} // verus!
