use vstd::prelude::*;

verus! {

/// A successful parse: the value and the input that follows it.
#[derive(Debug, Clone, Copy)]
pub struct ParseSuccess<'a, T> {
    pub value: T,
    pub remaining: &'a [u8],
}

/// The input does not match the grammar.
#[derive(Debug, Clone, Copy, PartialEq, Eq, Hash, Structural)]
pub struct ParseError;

pub type ParseResult<'a, T> = Result<ParseSuccess<'a, T>, ParseError>;

/// `r` is what a parser with grammar (`len`, `value`) returns on `input`: on a match of
/// `n` bytes a value the grammar allows and the input after those bytes, else an error.
pub open spec fn parse_agrees<'a, T>(
    r: ParseResult<'a, T>,
    input: Seq<u8>,
    len: Option<nat>,
    value: spec_fn(T) -> bool,
) -> bool {
    match len {
        Some(n) => {
            &&& n <= input.len()
            &&& r is Ok
            &&& value(r->Ok_0.value)
            &&& r->Ok_0.remaining@ == input.skip(n as int)
        },
        None => r is Err,
    }
}

/// A parser reads a prefix of a byte string.
pub trait Parser: Sized {
    type Output;

    /// The grammar: how many bytes a match reads, `None` when the input does not match.
    spec fn spec_parse_len(&self, input: Seq<u8>) -> Option<nat>;

    /// The grammar: `value` is what a match of `input` means.
    spec fn spec_parse_value(&self, input: Seq<u8>, value: Self::Output) -> bool;

    fn parse<'a>(&self, input: &'a [u8]) -> (r: ParseResult<'a, Self::Output>)
        ensures
            parse_agrees(
                r,
                input@,
                self.spec_parse_len(input@),
                |v: Self::Output| self.spec_parse_value(input@, v),
            ),
    ;
}

pub trait ParserExt: Parser {
    /// Parses the whole input: succeeds exactly when the grammar reads all of it.
    fn parse_all(&self, input: &[u8]) -> (r: Result<Self::Output, ParseError>)
        ensures
            r is Ok <==> self.spec_parse_len(input@) == Some(input@.len()),
            r matches Ok(v) ==> self.spec_parse_value(input@, v),
    {
        match self.parse(input) {
            Ok(s) => {
                if s.remaining.len() == 0 {
                    Ok(s.value)
                } else {
                    Err(ParseError)
                }
            },
            Err(e) => Err(e),
        }
    }
}

impl<P: Parser> ParserExt for P {

}

/// Matches the empty string.
#[derive(Debug, Clone, Copy)]
pub struct Empty;

pub fn empty() -> Empty {
    Empty
}

impl Parser for Empty {
    type Output = ();

    open spec fn spec_parse_len(&self, input: Seq<u8>) -> Option<nat> {
        Some(0nat)
    }

    open spec fn spec_parse_value(&self, input: Seq<u8>, value: ()) -> bool {
        true
    }

    fn parse<'a>(&self, input: &'a [u8]) -> (r: ParseResult<'a, ()>) {
        proof {
            assert(input@.skip(0) =~= input@);
        }
        Ok(ParseSuccess { value: (), remaining: input })
    }
}

/// Matches the end of the input.
#[derive(Debug, Clone, Copy)]
pub struct End;

pub fn end() -> End {
    End
}

impl Parser for End {
    type Output = ();

    open spec fn spec_parse_len(&self, input: Seq<u8>) -> Option<nat> {
        if input.len() == 0 {
            Some(0nat)
        } else {
            None
        }
    }

    open spec fn spec_parse_value(&self, input: Seq<u8>, value: ()) -> bool {
        true
    }

    fn parse<'a>(&self, input: &'a [u8]) -> (r: ParseResult<'a, ()>) {
        if input.len() == 0 {
            proof {
                assert(input@.skip(0) =~= input@);
            }
            Ok(ParseSuccess { value: (), remaining: input })
        } else {
            Err(ParseError)
        }
    }
}

/// Reads any one byte.
#[derive(Debug, Clone, Copy)]
pub struct Byte;

pub fn byte() -> Byte {
    Byte
}

impl Parser for Byte {
    type Output = u8;

    open spec fn spec_parse_len(&self, input: Seq<u8>) -> Option<nat> {
        if input.len() == 0 {
            None
        } else {
            Some(1nat)
        }
    }

    open spec fn spec_parse_value(&self, input: Seq<u8>, value: u8) -> bool {
        value == input[0]
    }

    fn parse<'a>(&self, input: &'a [u8]) -> (r: ParseResult<'a, u8>) {
        if input.len() == 0 {
            Err(ParseError)
        } else {
            let head = input[0];
            let tail = vstd::slice::slice_subrange(input, 1, input.len());
            proof {
                assert(tail@ =~= input@.skip(1));
            }
            Ok(ParseSuccess { value: head, remaining: tail })
        }
    }
}

/// Matches exactly the given bytes.
#[derive(Debug, Clone, Copy)]
pub struct Exact<'a> {
    pub s: &'a [u8],
}

pub fn exact<'a>(s: &'a [u8]) -> (r: Exact<'a>)
    ensures
        r.s@ == s@,
{
    Exact { s }
}

/// `input` begins with `lit`.
pub open spec fn starts_with(input: Seq<u8>, lit: Seq<u8>) -> bool {
    lit.len() <= input.len() && input.subrange(0, lit.len() as int) == lit
}

/// Whether `input` begins with `lit`.
pub fn bytes_start_with(input: &[u8], lit: &[u8]) -> (r: bool)
    ensures
        r == starts_with(input@, lit@),
{
    if lit.len() > input.len() {
        return false;
    }
    let mut i: usize = 0;
    while i < lit.len()
        invariant
            lit@.len() <= input@.len(),
            i <= lit@.len(),
            forall|j: int| 0 <= j < i ==> input@[j] == lit@[j],
        decreases lit@.len() - i,
    {
        if input[i] != lit[i] {
            proof {
                assert(input@.subrange(0, lit@.len() as int)[i as int] != lit@[i as int]);
            }
            return false;
        }
        i += 1;
    }
    proof {
        assert(input@.subrange(0, lit@.len() as int) =~= lit@);
    }
    true
}

impl<'b> Parser for Exact<'b> {
    type Output = ();

    open spec fn spec_parse_len(&self, input: Seq<u8>) -> Option<nat> {
        if starts_with(input, self.s@) {
            Some(self.s@.len())
        } else {
            None
        }
    }

    open spec fn spec_parse_value(&self, input: Seq<u8>, value: ()) -> bool {
        true
    }

    fn parse<'a>(&self, input: &'a [u8]) -> (r: ParseResult<'a, ()>) {
        if bytes_start_with(input, self.s) {
            let rest = vstd::slice::slice_subrange(input, self.s.len(), input.len());
            proof {
                assert(rest@ =~= input@.skip(self.s@.len() as int));
            }
            Ok(ParseSuccess { value: (), remaining: rest })
        } else {
            Err(ParseError)
        }
    }
}

/// Matches a line end.
pub fn endl() -> (r: Exact<'static>)
    ensures
        r.s@ == seq![10u8],
{
    exact(&[10u8])
}

/// An ASCII decimal digit.
pub open spec fn is_digit(b: u8) -> bool {
    48 <= b <= 57
}

/// The number of decimal digits at the start of the input.
pub open spec fn digits_len(input: Seq<u8>) -> nat
    decreases input.len(),
{
    if input.len() > 0 && is_digit(input[0]) {
        1 + digits_len(input.skip(1))
    } else {
        0
    }
}

/// The number written by decimal digits.
pub open spec fn decimal_value(ds: Seq<u8>) -> nat
    decreases ds.len(),
{
    if ds.len() == 0 {
        0
    } else {
        decimal_value(ds.drop_last()) * 10 + (ds.last() - 48) as nat
    }
}

pub proof fn lemma_digits_len(input: Seq<u8>, i: int)
    requires
        0 <= i <= input.len(),
        forall|j: int| 0 <= j < i ==> is_digit(#[trigger] input[j]),
        i == input.len() || !is_digit(input[i]),
    ensures
        digits_len(input) == i,
    decreases i,
{
    if i > 0 {
        lemma_digits_len(input.skip(1), i - 1);
    }
}

/// Reads a decimal `u32`: one or more digits, as many as there are, whose value fits.
#[derive(Debug, Clone, Copy)]
pub struct U32Parser;

pub fn u32() -> U32Parser {
    U32Parser
}

impl Parser for U32Parser {
    type Output = u32;

    open spec fn spec_parse_len(&self, input: Seq<u8>) -> Option<nat> {
        let n = digits_len(input);
        if n >= 1 && decimal_value(input.take(n as int)) <= u32::MAX {
            Some(n)
        } else {
            None
        }
    }

    open spec fn spec_parse_value(&self, input: Seq<u8>, value: u32) -> bool {
        value == decimal_value(input.take(digits_len(input) as int))
    }

    fn parse<'a>(&self, input: &'a [u8]) -> (r: ParseResult<'a, u32>) {
        let mut i: usize = 0;
        let mut acc: u64 = 0;
        let mut overflow = false;
        while i < input.len() && 48 <= input[i] && input[i] <= 57
            invariant
                i <= input@.len(),
                forall|j: int| 0 <= j < i ==> is_digit(#[trigger] input@[j]),
                !overflow ==> acc == decimal_value(input@.take(i as int)) && acc <= u32::MAX,
                overflow ==> decimal_value(input@.take(i as int)) > u32::MAX,
            decreases input@.len() - i,
        {
            let d = (input[i] - 48) as u64;
            proof {
                assert(input@.take(i + 1).drop_last() =~= input@.take(i as int));
                assert(input@.take(i + 1).last() == input@[i as int]);
            }
            if !overflow {
                acc = acc * 10 + d;
                if acc > 0xffff_ffff {
                    overflow = true;
                }
            }
            i = i + 1;
        }
        proof {
            lemma_digits_len(input@, i as int);
        }
        if i == 0 || overflow {
            return Err(ParseError);
        }
        let rest = vstd::slice::slice_subrange(input, i, input.len());
        proof {
            assert(rest@ =~= input@.skip(i as int));
        }
        Ok(ParseSuccess { value: acc as u32, remaining: rest })
    }
}

} // verus!
