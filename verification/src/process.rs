//! What is read out of another process, once its memory is at hand.
//!
//! Reading the memory is for the program around this crate. Here the bytes
//! are decoded: the process environment block, the process parameters, and
//! the environment. The layouts are those of a 64-bit process, which the
//! system shows of every process to a 64-bit reader.

use crate::text;
use crate::util::{quote_argument, quote_of};
use crate::Environment;
use vstd::prelude::*;

verus! {

/// An address in the process that is read.
pub type RemoteAddress = u64;

/// The size of the process environment block.
pub const PEB_SIZE: usize = 712;

/// Where the block holds the address of the process parameters.
pub const PEB_PROCESS_PARAMETERS: usize = 32;

/// The size of the process parameters.
pub const PARAMETERS_SIZE: usize = 1016;

/// Where the parameters hold the current directory.
pub const PARAMETERS_CURRENT_DIRECTORY: usize = 56;

/// Where the parameters hold the command line.
pub const PARAMETERS_COMMAND_LINE: usize = 112;

/// Where the parameters hold the address of the environment.
pub const PARAMETERS_ENVIRONMENT: usize = 128;

/// Where the parameters hold the size of the environment, in bytes.
pub const PARAMETERS_ENVIRONMENT_SIZE: usize = 1008;

/// The number that two bytes stand for, the low byte first.
pub open spec fn u16_at(bytes: Seq<u8>, at: int) -> int {
    bytes[at] + 256 * bytes[at + 1]
}

/// The number that eight bytes stand for, the low byte first.
pub open spec fn u64_at(bytes: Seq<u8>, at: int) -> int {
    bytes[at] + 256 * (bytes[at + 1] + 256 * (bytes[at + 2] + 256 * (bytes[at + 3] + 256 * (bytes[at
        + 4] + 256 * (bytes[at + 5] + 256 * (bytes[at + 6] + 256 * bytes[at + 7]))))))
}

/// Reads two bytes as a number, the low byte first.
pub fn read_u16(bytes: &[u8], at: usize) -> (result: u16)
    requires
        at + 2 <= bytes@.len(),
    ensures
        result == u16_at(bytes@, at as int),
{
    let low: u16 = bytes[at] as u16;
    let high: u16 = bytes[at + 1] as u16;
    low + 256 * high
}

/// Reads eight bytes as a number, the low byte first.
pub fn read_u64(bytes: &[u8], at: usize) -> (result: u64)
    requires
        at + 8 <= bytes@.len(),
    ensures
        result == u64_at(bytes@, at as int),
{
    let b0: u64 = bytes[at] as u64;
    let b1: u64 = bytes[at + 1] as u64;
    let b2: u64 = bytes[at + 2] as u64;
    let b3: u64 = bytes[at + 3] as u64;
    let b4: u64 = bytes[at + 4] as u64;
    let b5: u64 = bytes[at + 5] as u64;
    let b6: u64 = bytes[at + 6] as u64;
    let b7: u64 = bytes[at + 7] as u64;
    let v6: u64 = b6 + 256 * b7;
    let v5: u64 = b5 + 256 * v6;
    let v4: u64 = b4 + 256 * v5;
    let v3: u64 = b3 + 256 * v4;
    let v2: u64 = b2 + 256 * v3;
    let v1: u64 = b1 + 256 * v2;
    b0 + 256 * v1
}

/// A counted string in the memory of the process: its length in bytes, the
/// room that it has, and where its characters are.
#[derive(Debug, Clone, Copy, PartialEq, Eq, Structural)]
pub struct UnicodeString {
    pub length: u16,
    pub maximum_length: u16,
    pub buffer: RemoteAddress,
}

/// The counted string that sixteen bytes hold.
pub open spec fn unicode_string_at(bytes: Seq<u8>, at: int) -> UnicodeString {
    UnicodeString {
        length: u16_at(bytes, at) as u16,
        maximum_length: u16_at(bytes, at + 2) as u16,
        buffer: u64_at(bytes, at + 8) as u64,
    }
}

impl UnicodeString {
    /// Reads a counted string.
    pub fn read(bytes: &[u8], at: usize) -> (result: Self)
        requires
            at + 16 <= bytes@.len(),
        ensures
            result == unicode_string_at(bytes@, at as int),
    {
        let _ = bytes.len();
        UnicodeString {
            length: read_u16(bytes, at),
            maximum_length: read_u16(bytes, at + 2),
            buffer: read_u64(bytes, at + 8),
        }
    }

    /// The number of 16-bit units to read for the string: half its length
    /// in bytes.
    pub fn units(&self) -> (result: usize)
        ensures
            result == self.length / 2,
    {
        (self.length / 2) as usize
    }
}

/// The address of the process parameters, as the process environment block
/// holds it; nothing where the block is too short.
pub fn process_parameters_address(peb: &[u8]) -> (result: Option<RemoteAddress>)
    ensures
        result == if peb@.len() >= PEB_PROCESS_PARAMETERS + 8 {
            Some(u64_at(peb@, PEB_PROCESS_PARAMETERS as int) as u64)
        } else {
            None
        },
{
    if peb.len() >= PEB_PROCESS_PARAMETERS + 8 {
        Some(read_u64(peb, PEB_PROCESS_PARAMETERS))
    } else {
        None
    }
}

/// What the process parameters say of a process.
#[derive(Debug, Clone, Copy, PartialEq, Eq, Structural)]
pub struct ProcessParameters {
    pub current_directory: UnicodeString,
    pub command_line: UnicodeString,
    pub environment: RemoteAddress,
    pub environment_size: u64,
}

/// The parameters that a block of bytes holds.
pub open spec fn parameters_in(bytes: Seq<u8>) -> ProcessParameters {
    ProcessParameters {
        current_directory: unicode_string_at(bytes, PARAMETERS_CURRENT_DIRECTORY as int),
        command_line: unicode_string_at(bytes, PARAMETERS_COMMAND_LINE as int),
        environment: u64_at(bytes, PARAMETERS_ENVIRONMENT as int) as u64,
        environment_size: u64_at(bytes, PARAMETERS_ENVIRONMENT_SIZE as int) as u64,
    }
}

impl ProcessParameters {
    /// Reads the parameters; nothing where the block is too short.
    pub fn read(bytes: &[u8]) -> (result: Option<Self>)
        ensures
            result == if bytes@.len() >= PARAMETERS_SIZE {
                Some(parameters_in(bytes@))
            } else {
                None
            },
    {
        if bytes.len() < PARAMETERS_SIZE {
            return None;
        }
        Some(
            ProcessParameters {
                current_directory: UnicodeString::read(bytes, PARAMETERS_CURRENT_DIRECTORY),
                command_line: UnicodeString::read(bytes, PARAMETERS_COMMAND_LINE),
                environment: read_u64(bytes, PARAMETERS_ENVIRONMENT),
                environment_size: read_u64(bytes, PARAMETERS_ENVIRONMENT_SIZE),
            },
        )
    }

    /// The number of 16-bit units to read for the environment.
    pub fn environment_units(&self) -> (result: u64)
        ensures
            result == self.environment_size / 2,
    {
        self.environment_size / 2
    }
}

/// The position of the first `unit` in `data`, or the length of `data`
/// where it holds none.
pub open spec fn first_unit(data: Seq<u16>, unit: u16) -> int
    decreases data.len(),
{
    if data.len() == 0 {
        0
    } else if data[0] == unit {
        0
    } else {
        1 + first_unit(data.drop_first(), unit)
    }
}

/// The name and the value of an entry of the environment: what stands
/// before its first equal sign, and what stands after it. An entry without
/// the sign is no variable.
pub open spec fn variable_of(entry: Seq<u16>) -> Option<(Seq<u16>, Seq<u16>)> {
    let sign = first_unit(entry, 61);
    if 0 <= sign < entry.len() {
        Some((entry.take(sign), entry.skip(sign + 1)))
    } else {
        None
    }
}

/// The variables of an environment block. The block holds one entry after
/// the other, each ended by a zero; an empty entry ends the block.
pub open spec fn variables_of(data: Seq<u16>) -> Seq<(Seq<u16>, Seq<u16>)>
    decreases data.len(),
{
    let end = first_unit(data, 0);
    if 0 < end <= data.len() {
        let rest = if end < data.len() {
            data.skip(end + 1)
        } else {
            Seq::empty()
        };
        (match variable_of(data.take(end)) {
            Some(variable) => seq![variable],
            None => Seq::empty(),
        }) + variables_of(rest)
    } else {
        Seq::empty()
    }
}

/// `first_unit` is the least position that holds the unit.
pub proof fn lemma_first_unit(data: Seq<u16>, unit: u16)
    ensures
        0 <= first_unit(data, unit) <= data.len(),
        forall|j: int| 0 <= j < first_unit(data, unit) ==> data[j] != unit,
        first_unit(data, unit) < data.len() ==> data[first_unit(data, unit)] == unit,
    decreases data.len(),
{
    if data.len() > 0 && data[0] != unit {
        let rest = data.drop_first();
        lemma_first_unit(rest, unit);
        assert forall|j: int| 0 <= j < first_unit(data, unit) implies data[j] != unit by {
            if j > 0 {
                assert(data[j] == rest[j - 1]);
            }
        }
        let f = first_unit(rest, unit);
        assert(f < rest.len() ==> data[f + 1] == rest[f]);
    }
}

/// A position that holds the unit and has none before it is the first one.
pub proof fn lemma_first_unit_is(data: Seq<u16>, unit: u16, k: int)
    requires
        0 <= k <= data.len(),
        forall|j: int| 0 <= j < k ==> data[j] != unit,
        k < data.len() ==> data[k] == unit,
    ensures
        first_unit(data, unit) == k,
{
    lemma_first_unit(data, unit);
    let f = first_unit(data, unit);
    if f < k {
        assert(data[f] == unit);
    } else if k < f {
        assert(data[k] == unit);
    }
}

/// The text that 16-bit units stand for, a replacement character in the
/// place of what is no UTF-16.
pub uninterp spec fn utf16_text(units: Seq<u16>) -> Seq<char>;

/// Decodes UTF-16 with `String::from_utf16_lossy` of std, which does not
/// fail. The contract names the text and claims nothing else of it.
#[verifier::external_body]
pub(crate) fn decode_utf16(units: &Vec<u16>) -> (result: String)
    ensures
        result@ == utf16_text(units@),
{
    String::from_utf16_lossy(units)
}

/// The environment of a process as its memory holds it.
#[derive(Debug, Clone, PartialEq, Eq)]
pub struct EnvironmentBlock {
    pub data: Vec<u16>,
}

/// The position at or after `from` that holds the unit, or the end of the
/// data.
fn find_unit(data: &Vec<u16>, from: usize, to: usize, unit: u16) -> (result: usize)
    requires
        from <= to <= data.len(),
    ensures
        from <= result <= to,
        result - from == first_unit(data@.subrange(from as int, to as int), unit),
{
    let mut i: usize = from;
    while i < to
        invariant
            from <= i <= to <= data.len(),
            forall|j: int| from <= j < i ==> data@[j] != unit,
        decreases to - i,
    {
        if data[i] == unit {
            proof {
                lemma_first_unit_is(data@.subrange(from as int, to as int), unit, i - from);
            }
            return i;
        }
        i += 1;
    }
    proof {
        lemma_first_unit_is(data@.subrange(from as int, to as int), unit, to - from);
    }
    to
}

/// A copy of a part of the data.
fn copy_units(data: &Vec<u16>, from: usize, to: usize) -> (result: Vec<u16>)
    requires
        from <= to <= data.len(),
    ensures
        result@ == data@.subrange(from as int, to as int),
{
    let mut result: Vec<u16> = Vec::new();
    let mut i: usize = from;
    while i < to
        invariant
            from <= i <= to <= data.len(),
            result@ == data@.subrange(from as int, i as int),
        decreases to - i,
    {
        result.push(data[i]);
        assert(result@ =~= data@.subrange(from as int, i + 1));
        i += 1;
    }
    result
}

impl EnvironmentBlock {
    /// The variables of the block, in the order of the block.
    pub fn iter(&self) -> (result: Vec<(Vec<u16>, Vec<u16>)>)
        ensures
            result.len() == variables_of(self.data@).len(),
            forall|i: int|
                0 <= i < result.len() ==> (#[trigger] result[i]).0@ == variables_of(
                    self.data@,
                )[i].0 && result[i].1@ == variables_of(self.data@)[i].1,
    {
        let mut result: Vec<(Vec<u16>, Vec<u16>)> = Vec::new();
        let ghost mut found: Seq<(Seq<u16>, Seq<u16>)> = Seq::empty();
        let mut start: usize = 0;
        let length = self.data.len();
        proof {
            assert(self.data@.skip(0) =~= self.data@);
            assert(found + variables_of(self.data@) =~= variables_of(self.data@));
        }
        while start < length
            invariant
                start <= length == self.data.len(),
                variables_of(self.data@) == found + variables_of(self.data@.skip(start as int)),
                result.len() == found.len(),
                forall|i: int|
                    0 <= i < result.len() ==> (#[trigger] result[i]).0@ == found[i].0
                        && result[i].1@ == found[i].1,
            decreases length - start,
        {
            let end = find_unit(&self.data, start, length, 0);
            let ghost rest = self.data@.skip(start as int);
            proof {
                assert(self.data@.subrange(start as int, length as int) =~= rest);
                assert(rest.take(end - start) =~= self.data@.subrange(start as int, end as int));
            }
            if end == start {
                proof {
                    assert(variables_of(rest) =~= Seq::<(Seq<u16>, Seq<u16>)>::empty());
                    assert(self.data@.skip(length as int) =~= Seq::<u16>::empty());
                    assert(found + variables_of(Seq::<u16>::empty()) =~= found + variables_of(rest));
                }
                start = length;
                continue;
            }
            let sign = find_unit(&self.data, start, end, 61);
            let ghost entry = self.data@.subrange(start as int, end as int);
            let ghost before = found;
            if sign < end {
                let name = copy_units(&self.data, start, sign);
                let value = copy_units(&self.data, sign + 1, end);
                proof {
                    assert(entry.take(sign - start) =~= name@);
                    assert(entry.skip(sign - start + 1) =~= value@);
                    found = found.push((name@, value@));
                }
                result.push((name, value));
            }
            proof {
                let next = if end < length {
                    rest.skip(end - start + 1)
                } else {
                    Seq::<u16>::empty()
                };
                if end < length {
                    assert(next =~= self.data@.skip(end + 1));
                } else {
                    assert(self.data@.skip(length as int) =~= Seq::<u16>::empty());
                }
                assert(before + (match variable_of(entry) {
                    Some(variable) => seq![variable],
                    None => Seq::empty(),
                } + variables_of(next)) =~= found + variables_of(next));
            }
            start = if end < length {
                end + 1
            } else {
                length
            };
        }
        proof {
            if start >= length {
                assert(self.data@.skip(start as int) =~= Seq::<u16>::empty());
                assert(found + variables_of(Seq::<u16>::empty()) =~= found);
            }
        }
        result
    }

    /// The environment that the block stands for, its names and values as
    /// text.
    pub fn environment(&self) -> (result: Environment)
        ensures
            result.variables.deep_view() == Seq::new(
                variables_of(self.data@).len(),
                |i: int|
                    (
                        utf16_text(variables_of(self.data@)[i].0),
                        utf16_text(variables_of(self.data@)[i].1),
                    ),
            ),
    {
        let variables = self.iter();
        let mut result: Vec<(String, String)> = Vec::new();
        let mut i: usize = 0;
        while i < variables.len()
            invariant
                i <= variables.len(),
                variables.len() == variables_of(self.data@).len(),
                forall|j: int|
                    0 <= j < variables.len() ==> (#[trigger] variables[j]).0@ == variables_of(
                        self.data@,
                    )[j].0 && variables[j].1@ == variables_of(self.data@)[j].1,
                result.len() == i,
                forall|j: int|
                    0 <= j < i ==> (#[trigger] result[j]).0@ == utf16_text(
                        variables_of(self.data@)[j].0,
                    ) && result[j].1@ == utf16_text(variables_of(self.data@)[j].1),
            decreases variables.len() - i,
        {
            let name = decode_utf16(&variables[i].0);
            let value = decode_utf16(&variables[i].1);
            result.push((name, value));
            i += 1;
        }
        assert(result.deep_view() =~= Seq::new(
            variables_of(self.data@).len(),
            |i: int|
                (
                    utf16_text(variables_of(self.data@)[i].0),
                    utf16_text(variables_of(self.data@)[i].1),
                ),
        ));
        Environment { variables: result }
    }
}

/// What to do after the system was asked for the name of a process image
/// with a buffer of some size.
#[derive(Debug, Clone, Copy, PartialEq, Eq, Structural)]
pub enum ImageNameStep {
    /// The name is in the buffer; this many units of it.
    Done(usize),
    /// The buffer was too small; ask again with one of this size.
    Grow(usize),
    /// The system failed otherwise, or no larger buffer can be had.
    Fail,
}

/// The step after an answer of the system: done where it succeeded with a
/// size that fits the buffer, a buffer twice as large where it found the
/// buffer too small, a failure otherwise.
pub fn image_name_step(
    succeeded: bool,
    insufficient_buffer: bool,
    size: u32,
    capacity: usize,
) -> (result: ImageNameStep)
    ensures
        result == if succeeded {
            if size <= capacity {
                ImageNameStep::Done(size as usize)
            } else {
                ImageNameStep::Fail
            }
        } else if insufficient_buffer && 0 < capacity <= usize::MAX / 2 {
            ImageNameStep::Grow((capacity * 2) as usize)
        } else {
            ImageNameStep::Fail
        },
{
    if succeeded {
        if size as usize <= capacity {
            ImageNameStep::Done(size as usize)
        } else {
            ImageNameStep::Fail
        }
    } else if insufficient_buffer && 0 < capacity && capacity <= usize::MAX / 2 {
        ImageNameStep::Grow(capacity * 2)
    } else {
        ImageNameStep::Fail
    }
}

/// The flag that makes the system report the processes of a new process to
/// its creator.
pub const DEBUG_PROCESS: u32 = 1;

/// What is needed to start a process: its command line and the flags of its
/// creation.
#[derive(Debug, Clone, PartialEq, Eq)]
pub struct ProcessCreator {
    command_line: String,
    flags: u32,
}

/// The command line for a list of arguments: each argument quoted, with a
/// space between each two.
pub open spec fn command_line_for(arguments: Seq<Seq<char>>, force_quote: bool) -> Seq<char> {
    text::join(Seq::new(arguments.len(), |i: int| quote_of(arguments[i], force_quote)), " "@)
}

impl ProcessCreator {
    pub closed spec fn spec_command_line(&self) -> Seq<char> {
        self.command_line@
    }

    pub closed spec fn spec_flags(&self) -> u32 {
        self.flags
    }

    pub fn new_with_command_line(command_line: &str) -> (result: Self)
        ensures
            result.spec_command_line() == command_line@,
            result.spec_flags() == 0,
    {
        Self::new(command_line.to_owned())
    }

    pub fn new_with_arguments(arguments: &Vec<String>, force_quote: bool) -> (result: Self)
        ensures
            result.spec_command_line() == command_line_for(arguments.deep_view(), force_quote),
            result.spec_flags() == 0,
    {
        let mut quoted: Vec<String> = Vec::new();
        let mut i: usize = 0;
        while i < arguments.len()
            invariant
                i <= arguments.len(),
                quoted.len() == i,
                forall|j: int|
                    0 <= j < i ==> (#[trigger] quoted[j])@ == quote_of(arguments[j]@, force_quote),
            decreases arguments.len() - i,
        {
            quoted.push(quote_argument(arguments[i].as_str(), force_quote));
            i += 1;
        }
        assert(quoted.deep_view() =~= Seq::new(
            arguments.deep_view().len(),
            |i: int| quote_of(arguments.deep_view()[i], force_quote),
        ));
        Self::new(text::join_with(&quoted, " "))
    }

    fn new(command_line: String) -> (result: Self)
        ensures
            result.spec_command_line() == command_line@,
            result.spec_flags() == 0,
    {
        Self { command_line, flags: 0 }
    }

    /// Sets or clears the flag that makes the creator the debugger of the
    /// new process.
    pub fn debug(self, value: bool) -> (result: ProcessCreator)
        ensures
            result.spec_command_line() == self.spec_command_line(),
            result.spec_flags() == if value {
                self.spec_flags() | DEBUG_PROCESS
            } else {
                self.spec_flags() & !DEBUG_PROCESS
            },
    {
        let flags = if value {
            self.flags | DEBUG_PROCESS
        } else {
            self.flags & !DEBUG_PROCESS
        };
        ProcessCreator { command_line: self.command_line, flags }
    }

    /// The command line of the process.
    pub fn command_line(&self) -> (result: &String)
        ensures
            result@ == self.spec_command_line(),
    {
        &self.command_line
    }

    /// The flags of its creation.
    pub fn flags(&self) -> (result: u32)
        ensures
            result == self.spec_flags(),
    {
        self.flags
    }
}

} // verus!
