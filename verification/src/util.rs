//! Writing an argument so that it survives a command line.

use crate::text;
use vstd::prelude::*;

verus! {

/// Whether `c` is white space in the sense of Unicode.
pub open spec fn is_whitespace(c: char) -> bool {
    let code = c as u32;
    ||| 0x09 <= code <= 0x0d
    ||| code == 0x20
    ||| code == 0x85
    ||| code == 0xa0
    ||| code == 0x1680
    ||| 0x2000 <= code <= 0x200a
    ||| code == 0x2028
    ||| code == 0x2029
    ||| code == 0x202f
    ||| code == 0x205f
    ||| code == 0x3000
}

/// Whether an argument has to be put in quotes: it is empty, or holds white
/// space or a quotation mark.
pub open spec fn needs_quotes(argument: Seq<char>) -> bool {
    argument.len() == 0 || exists|i: int|
        0 <= i < argument.len() && (is_whitespace(#[trigger] argument[i]) || argument[i] == '"')
}

/// `count` backslashes.
pub open spec fn backslashes(count: nat) -> Seq<char> {
    Seq::new(count, |i: int| '\\')
}

/// The inside of a quoted argument, for what is left of the argument after
/// `pending` backslashes that were read and not yet written. Backslashes
/// before a quotation mark are doubled and the mark gets one more; those at
/// the end are doubled, for the closing mark follows them; all others stand
/// as they are.
pub open spec fn escaped(rest: Seq<char>, pending: nat) -> Seq<char>
    decreases rest.len(),
{
    if rest.len() == 0 {
        backslashes(2 * pending)
    } else if rest[0] == '\\' {
        escaped(rest.drop_first(), pending + 1)
    } else if rest[0] == '"' {
        backslashes(2 * pending + 1).push('"') + escaped(rest.drop_first(), 0)
    } else {
        backslashes(pending).push(rest[0]) + escaped(rest.drop_first(), 0)
    }
}

/// The argument in quotes.
pub open spec fn quoted(argument: Seq<char>) -> Seq<char> {
    seq!['"'] + escaped(argument, 0) + seq!['"']
}

/// The argument as it is written on a command line.
pub open spec fn quote_of(argument: Seq<char>, force: bool) -> Seq<char> {
    if !force && !needs_quotes(argument) {
        argument
    } else {
        quoted(argument)
    }
}

fn whitespace(c: char) -> (result: bool)
    ensures
        result == is_whitespace(c),
{
    let code = c as u32;
    (0x09 <= code && code <= 0x0d) || code == 0x20 || code == 0x85 || code == 0xa0 || code
        == 0x1680 || (0x2000 <= code && code <= 0x200a) || code == 0x2028 || code == 0x2029
        || code == 0x202f || code == 0x205f || code == 0x3000
}

/// Quotes an argument for a command line. Unless `force` is set, an
/// argument that needs no quotes is left as it is.
pub fn quote_argument(argument: &str, force: bool) -> (result: String)
    ensures
        result@ == quote_of(argument@, force),
{
    let chars = text::chars_of(argument);
    if !force && chars.len() != 0 {
        let mut plain = true;
        let mut i: usize = 0;
        while i < chars.len()
            invariant
                i <= chars.len(),
                plain <==> forall|j: int|
                    0 <= j < i ==> !(is_whitespace(#[trigger] chars@[j]) || chars@[j] == '"'),
            decreases chars.len() - i,
        {
            if whitespace(chars[i]) || chars[i] == '"' {
                plain = false;
            }
            i += 1;
        }
        if plain {
            return argument.to_owned();
        }
    }
    let mut result: Vec<char> = Vec::new();
    result.push('"');
    let mut pending: usize = 0;
    let mut i: usize = 0;
    proof {
        assert(chars@.skip(0) =~= chars@);
        assert(result@.skip(1) + escaped(chars@, 0) =~= escaped(chars@, 0));
    }
    while i < chars.len()
        invariant
            i <= chars.len(),
            pending <= i,
            result@.len() >= 1,
            result@[0] == '"',
            escaped(chars@, 0) == result@.skip(1) + escaped(chars@.skip(i as int), pending as nat),
        decreases chars.len() - i,
    {
        let c = chars[i];
        let ghost before = result@;
        proof {
            assert(chars@.skip(i as int).drop_first() =~= chars@.skip(i + 1));
        }
        if c == '\\' {
            pending += 1;
        } else {
            if c == '"' {
                append_copies(&mut result, '\\', pending);
                append_copies(&mut result, '\\', pending);
                result.push('\\');
            } else {
                append_copies(&mut result, '\\', pending);
            }
            result.push(c);
            proof {
                let written = if c == '"' {
                    backslashes((2 * pending + 1) as nat).push(c)
                } else {
                    backslashes(pending as nat).push(c)
                };
                assert(result@.skip(1) =~= before.skip(1) + written);
                assert(before.skip(1) + (written + escaped(chars@.skip(i + 1), 0)) =~= before.skip(
                    1,
                ) + written + escaped(chars@.skip(i + 1), 0));
            }
            pending = 0;
        }
        i += 1;
    }
    let ghost before = result@;
    append_copies(&mut result, '\\', pending);
    append_copies(&mut result, '\\', pending);
    result.push('"');
    proof {
        assert(chars@.skip(chars@.len() as int) =~= Seq::<char>::empty());
        assert(result@ =~= quoted(chars@));
    }
    text::from_chars(&result)
}

/// Writes `count` copies of `value` at the end of `vector`.
pub fn append_copies<T: Copy>(vector: &mut Vec<T>, value: T, count: usize)
    ensures
        final(vector)@ == old(vector)@ + Seq::new(count as nat, |i: int| value),
{
    let mut n: usize = 0;
    assert(vector@ =~= old(vector)@ + Seq::new(0, |i: int| value));
    while n < count
        invariant
            n <= count,
            vector@ == old(vector)@ + Seq::new(n as nat, |i: int| value),
        decreases count - n,
    {
        vector.push(value);
        n += 1;
        assert(vector@ =~= old(vector)@ + Seq::new(n as nat, |i: int| value));
    }
}

/// The bit that marks a result code as made from a status of the kernel.
pub const FACILITY_NT_BIT: u32 = 0x1000_0000;

/// Whether a status of the kernel stands for success: it is not negative.
pub fn nt_success(status: i32) -> (result: bool)
    ensures
        result == (status >= 0),
{
    status >= 0
}

/// The bits of a status, read as a number without a sign.
pub open spec fn bits_of(status: i32) -> u32 {
    if status >= 0 {
        status as u32
    } else {
        (status + 0x1_0000_0000) as u32
    }
}

/// The result code for a status of the kernel: the bits of the status, with
/// the mark that it comes from the kernel.
pub fn hresult_from_nt(status: i32) -> (result: u32)
    ensures
        result == bits_of(status) | FACILITY_NT_BIT,
{
    let bits: u32 = if status >= 0 {
        status as u32
    } else {
        ((status as i64) + 0x1_0000_0000) as u32
    };
    bits | FACILITY_NT_BIT
}

} // verus!
