//! A value wrapper around a window: rendering as a text fragment of
//! exactly `N` characters, and parsing such a fragment back, with a
//! length-mismatch error as the only way to fail.

use crate::iter::Substr;
use vstd::prelude::*;
use vstd::std_specs::iter::IteratorSpec;
use vstd::string::StrSliceExecFns;
use vstd::string::StringExecFns;

verus! {

/// Appends one character to a string.
///
/// Relies on `String::push`: the string grows by exactly the pushed
/// character.
#[verifier::external_body]
fn push_char(s: &mut String, c: char)
    ensures
        final(s)@ == old(s)@.push(c),
{
    s.push(c)
}

/// The digit character for `d`, meaningful for `d < 10`.
pub open spec fn digit(d: nat) -> char {
    ((d + 48) as u8) as char
}

/// The decimal digits of `n`, most significant first.
pub open spec fn decimal(n: nat) -> Seq<char>
    decreases n,
{
    if n < 10 {
        seq![digit(n)]
    } else {
        decimal(n / 10).push(digit(n % 10))
    }
}

/// The decimal rendering of `n`.
fn decimal_string(n: usize) -> (r: String)
    ensures
        r@ == decimal(n as nat),
    decreases n,
{
    let d = n % 10;
    let c = ((d as u8) + 48) as char;
    proof {
        assert(c == digit((n as nat) % 10));
    }
    if n < 10 {
        let mut r = String::new();
        push_char(&mut r, c);
        proof {
            assert(r@ =~= decimal(n as nat));
        }
        r
    } else {
        let mut r = decimal_string(n / 10);
        push_char(&mut r, c);
        r
    }
}

/// A window of `N` characters with value semantics: wraps a [`Substr`]
/// and adds rendering to and parsing from a plain text fragment.
#[derive(Clone, Copy, Debug, PartialEq, Eq, PartialOrd, Ord, Hash)]
pub struct SubstrWrapper<const N: usize>(pub Substr<N>);

impl<const N: usize> View for SubstrWrapper<N> {
    type V = Seq<char>;

    open spec fn view(&self) -> Seq<char> {
        self.0@
    }
}

impl<const N: usize> SubstrWrapper<N> {
    /// Extracts the wrapped window.
    pub fn inner(self) -> (r: Substr<N>)
        ensures
            r == self.0,
    {
        self.0
    }

    /// Wraps a window.
    pub fn from(value: Substr<N>) -> (r: Self)
        ensures
            r.0 == value,
    {
        SubstrWrapper(value)
    }

    /// Renders the window as a text fragment: its `N` characters in
    /// order, nothing else.
    pub fn render(&self) -> (r: String)
        ensures
            r@ == self@,
    {
        let mut r = String::new();
        let mut i: usize = 0;
        while i < N
            invariant
                i <= N,
                r@ == self@.subrange(0, i as int),
            decreases N - i,
        {
            let ghost before = r@;
            push_char(&mut r, self.0[i]);
            i = i + 1;
            proof {
                assert(r@ =~= self@.subrange(0, i as int));
            }
        }
        proof {
            assert(self@.subrange(0, N as int) =~= self@);
        }
        r
    }

    /// Parses a text fragment of exactly `N` characters back into a
    /// window.  A fragment of any other character count is rejected with
    /// a length mismatch reporting the expected and the actual count.
    pub fn from_str(s: &str) -> (r: Result<Self, SubstrParserError>)
        ensures
            match r {
                Ok(w) => s@.len() == N && w@ == s@,
                Err(e) => s@.len() != N && e.expected == N && e.current == s@.len(),
            },
    {
        let count = s.unicode_len();
        if count != N {
            return Err(SubstrParserError { expected: N, current: count });
        }
        let mut chars = s.chars();
        let mut res: [char; N] = ['\0';N];
        let mut idx: usize = 0;
        proof {
            assert(s@.skip(0) =~= s@);
        }
        while idx < N
            invariant
                idx <= N,
                s@.len() == N,
                chars.remaining() == s@.skip(idx as int),
                forall|i: int| 0 <= i < idx ==> res@[i] == s@[i],
            decreases N - idx,
        {
            match chars.next() {
                Some(c) => {
                    res[idx] = c;
                    idx = idx + 1;
                    proof {
                        assert(s@.skip(idx as int) =~= s@.skip(idx - 1).drop_first());
                    }
                },
                None => {
                    proof {
                        assert(s@.skip(idx as int).len() == 0);
                        assert(false);
                    }
                },
            }
        }
        proof {
            assert(res@ =~= s@);
        }
        Ok(SubstrWrapper(res))
    }
}

/// Round trip: a window rendered as a text fragment always parses back,
/// and parses back to the very window it came from.  The first premise
/// is what [`SubstrWrapper::render`] ensures of its result, the second
/// what [`SubstrWrapper::from_str`] ensures of a successful parse.
pub proof fn lemma_parse_render_round_trip<const N: usize>(
    w: SubstrWrapper<N>,
    rendered: Seq<char>,
    parsed: SubstrWrapper<N>,
)
    requires
        rendered == w@,
        parsed@ == rendered,
    ensures
        rendered.len() == N,
        parsed == w,
{
    assert(parsed.0 =~= w.0);
}

/// The length-mismatch error: a text fragment parsed as a window of
/// `expected` characters held `current` of them instead.
#[derive(Clone, Copy, Debug)]
pub struct SubstrParserError {
    /// The expected number of characters.
    pub expected: usize,
    /// The number of characters the fragment actually held.
    pub current: usize,
}

/// The text of a length-mismatch report for the given counts.
pub open spec fn message_of(expected: nat, current: nat) -> Seq<char> {
    "invalid length "@ + decimal(current) + ", expected "@ + decimal(expected)
}

impl SubstrParserError {
    /// The error rendered as text, reporting the actual count and then
    /// the expected one.
    pub fn message(&self) -> (r: String)
        ensures
            r@ == message_of(self.expected as nat, self.current as nat),
    {
        let mut r = String::new();
        r.append("invalid length ");
        let cur = decimal_string(self.current);
        r.append(cur.as_str());
        r.append(", expected ");
        let exp = decimal_string(self.expected);
        r.append(exp.as_str());
        proof {
            assert(r@ =~= message_of(self.expected as nat, self.current as nat));
        }
        r
    }
}

} // verus!
