//! What is known of the camera without touching it: the port that it streams
//! on, as its configuration says.
//!
//! The caller reads the configuration and runs the camera; the text is
//! understood here.

use vstd::prelude::*;

verus! {

/// The setting that names the port of the camera stream.
pub const STREAM_PORT_KEY: &'static str = "stream_port";

/// The port that the stand-in camera claims to stream on.
pub const FAKE_CAMERA_PORT: u16 = 8981;

/// Why no port could be had from a configuration.
#[derive(Clone, Copy, Debug, PartialEq, Eq, Structural)]
pub enum ConfigError {
    /// The setting is there, but its value is no port number.
    InvalidData,
    /// No line of the configuration sets the port.
    NotFound,
}

impl ConfigError {
    /// The text that describes the error.
    pub open spec fn spec_message(self) -> Seq<char> {
        match self {
            ConfigError::InvalidData => "Failed to parse port number from the config file"@,
            ConfigError::NotFound => "Failed to find camera port setting in config file"@,
        }
    }

    /// The text that describes the error.
    pub fn message(&self) -> (text: &'static str)
        ensures
            text@ == self.spec_message(),
    {
        match self {
            ConfigError::InvalidData => "Failed to parse port number from the config file",
            ConfigError::NotFound => "Failed to find camera port setting in config file",
        }
    }
}

/// Whether `c` separates words: the characters that Unicode calls white space.
pub open spec fn spec_is_whitespace(c: char) -> bool {
    let code = c as u32;
    ||| 0x09 <= code <= 0x0D
    ||| code == 0x20
    ||| code == 0x85
    ||| code == 0xA0
    ||| code == 0x1680
    ||| 0x2000 <= code <= 0x200A
    ||| code == 0x2028
    ||| code == 0x2029
    ||| code == 0x202F
    ||| code == 0x205F
    ||| code == 0x3000
}

/// Whether `c` separates words.
pub fn is_whitespace(c: char) -> (whitespace: bool)
    ensures
        whitespace == spec_is_whitespace(c),
{
    let code: u32 = c as u32;
    (0x09 <= code && code <= 0x0D) || code == 0x20 || code == 0x85 || code == 0xA0 || code
        == 0x1680 || (0x2000 <= code && code <= 0x200A) || code == 0x2028 || code == 0x2029
        || code == 0x202F || code == 0x205F || code == 0x3000
}

/// The first position at or behind `from` whose character is not of the kind
/// that is skipped (white space if `whitespace`, anything else if not), or
/// the end of the line.
pub open spec fn spec_skip(line: Seq<char>, from: int, whitespace: bool) -> int
    decreases line.len() - from,
{
    if from < 0 || from >= line.len() {
        line.len() as int
    } else if spec_is_whitespace(line[from]) == whitespace {
        spec_skip(line, from + 1, whitespace)
    } else {
        from
    }
}

/// The second word of a line, where words are what white space separates.
pub open spec fn spec_second_word(line: Seq<char>) -> Option<Seq<char>> {
    let first_start = spec_skip(line, 0, true);
    let first_end = spec_skip(line, first_start, false);
    let second_start = spec_skip(line, first_end, true);
    let second_end = spec_skip(line, second_start, false);
    if second_start < line.len() {
        Some(line.subrange(second_start, second_end))
    } else {
        None
    }
}

/// The value of a decimal digit.
pub open spec fn spec_digit(c: char) -> Option<nat> {
    let code = c as u32;
    if 0x30 <= code <= 0x39 {
        Some((code - 0x30) as nat)
    } else {
        None
    }
}

/// The number that a run of decimal digits writes. A run with anything but
/// digits in it writes none; the empty run writes zero.
pub open spec fn spec_number(digits: Seq<char>) -> Option<nat>
    decreases digits.len(),
{
    if digits.len() == 0 {
        Some(0)
    } else {
        match (spec_number(digits.drop_last()), spec_digit(digits.last())) {
            (Some(value), Some(digit)) => Some(10 * value + digit),
            _ => None,
        }
    }
}

/// The port number that a word writes: decimal digits, at least one, with or
/// without a plus sign in front, and no more than a port number can be.
pub open spec fn spec_parse_port(word: Seq<char>) -> Option<u16> {
    let digits = if word.len() > 0 && word[0] == '+' {
        word.subrange(1, word.len() as int)
    } else {
        word
    };
    if digits.len() == 0 {
        None
    } else {
        match spec_number(digits) {
            Some(value) => if value <= u16::MAX {
                Some(value as u16)
            } else {
                None
            },
            None => None,
        }
    }
}

/// Whether `line` begins with `prefix`.
pub open spec fn spec_starts_with(line: Seq<char>, prefix: Seq<char>) -> bool {
    line.len() >= prefix.len() && line.subrange(0, prefix.len() as int) == prefix
}

/// What one line of the configuration says of the port.
///
/// A line that begins with the name of the setting and has a second word
/// decides: the word is the port, or the configuration is invalid. Any other
/// line says nothing.
pub open spec fn spec_port_setting(line: Seq<char>) -> Option<Result<u16, ConfigError>> {
    if spec_starts_with(line, STREAM_PORT_KEY@) {
        match spec_second_word(line) {
            Some(word) => Some(
                match spec_parse_port(word) {
                    Some(port) => Ok(port),
                    None => Err(ConfigError::InvalidData),
                },
            ),
            None => None,
        }
    } else {
        None
    }
}

/// What a configuration says of the port: what its first line that decides
/// says, and that the setting was not found where no line decides.
pub open spec fn spec_get_port(lines: Seq<Seq<char>>) -> Result<u16, ConfigError>
    decreases lines.len(),
{
    if lines.len() == 0 {
        Err(ConfigError::NotFound)
    } else {
        match spec_port_setting(lines[0]) {
            Some(decided) => decided,
            None => spec_get_port(lines.subrange(1, lines.len() as int)),
        }
    }
}

/// The characters of a text, one by one.
pub fn chars_of(text: &str) -> (chars: Vec<char>)
    ensures
        chars@ == text@,
{
    let mut chars: Vec<char> = Vec::new();
    for c in it: text.chars()
        invariant
            chars@ == it.seq().take(it.index()),
    {
        chars.push(c);
    }
    chars
}

/// A run of digits that writes a number writes one up to every position, and
/// never a larger one than in the end.
pub proof fn lemma_number_prefix(digits: Seq<char>, k: int)
    requires
        0 <= k <= digits.len(),
        spec_number(digits) is Some,
    ensures
        spec_number(digits.take(k)) is Some,
        spec_number(digits.take(k))->0 <= spec_number(digits)->0,
    decreases digits.len(),
{
    if k == digits.len() {
        assert(digits.take(k) =~= digits);
    } else {
        assert(digits.drop_last().take(k) =~= digits.take(k));
        lemma_number_prefix(digits.drop_last(), k);
    }
}

/// Skips characters of one kind from `from` on: see [`spec_skip`].
fn skip(chars: &Vec<char>, from: usize, whitespace: bool) -> (to: usize)
    requires
        from <= chars@.len(),
    ensures
        to == spec_skip(chars@, from as int, whitespace),
        from <= to <= chars@.len(),
{
    let mut at: usize = from;
    while at < chars.len() && is_whitespace(chars[at]) == whitespace
        invariant
            from <= at <= chars@.len(),
            spec_skip(chars@, from as int, whitespace) == spec_skip(chars@, at as int, whitespace),
        decreases chars@.len() - at,
    {
        at += 1;
    }
    at
}

/// Reads the port number that the characters from `start` up to `end` write.
fn parse_port_between(chars: &Vec<char>, start: usize, end: usize) -> (port: Option<u16>)
    requires
        start <= end <= chars@.len(),
    ensures
        port == spec_parse_port(chars@.subrange(start as int, end as int)),
{
    let ghost word = chars@.subrange(start as int, end as int);
    let first: usize = if start < end && chars[start] == '+' {
        start + 1
    } else {
        start
    };
    let ghost digits = chars@.subrange(first as int, end as int);
    assert(digits =~= if word.len() > 0 && word[0] == '+' {
        word.subrange(1, word.len() as int)
    } else {
        word
    });
    if first == end {
        return None;
    }
    let mut value: u32 = 0;
    let mut at: usize = first;
    assert(digits.take(0) =~= Seq::<char>::empty());
    while at < end
        invariant
            first <= at <= end <= chars@.len(),
            first < end,
            word == chars@.subrange(start as int, end as int),
            digits == chars@.subrange(first as int, end as int),
            spec_parse_port(word) == match spec_number(digits) {
                Some(number) => if number <= u16::MAX {
                    Some(number as u16)
                } else {
                    None
                },
                None => None,
            },
            spec_number(digits.take(at - first)) == Some(value as nat),
            value <= u16::MAX,
        decreases end - at,
    {
        let code: u32 = chars[at] as u32;
        proof {
            let longer = digits.take(at - first + 1);
            assert(longer.drop_last() =~= digits.take(at - first));
            assert(longer.last() == chars@[at as int]);
            if spec_number(digits) is Some {
                lemma_number_prefix(digits, at - first + 1);
            }
        }
        if code < 0x30 || code > 0x39 {
            return None;
        }
        value = 10 * value + (code - 0x30);
        if value > 0xFFFF {
            return None;
        }
        at += 1;
    }
    assert(digits.take(end - first) =~= digits);
    Some(value as u16)
}

/// Reads a port number: decimal digits, with or without a plus sign in front.
/// `None` means that `word` does not write a port number.
pub fn parse_port(word: &str) -> (port: Option<u16>)
    ensures
        port == spec_parse_port(word@),
{
    let chars = chars_of(word);
    assert(chars@.subrange(0, chars@.len() as int) =~= chars@);
    parse_port_between(&chars, 0, chars.len())
}

/// Whether the characters begin with those of `prefix`.
fn starts_with(chars: &Vec<char>, prefix: &Vec<char>) -> (found: bool)
    ensures
        found == spec_starts_with(chars@, prefix@),
{
    if chars.len() < prefix.len() {
        return false;
    }
    let mut at: usize = 0;
    while at < prefix.len()
        invariant
            at <= prefix@.len() <= chars@.len(),
            forall|i: int| 0 <= i < at ==> chars@[i] == prefix@[i],
        decreases prefix@.len() - at,
    {
        if chars[at] != prefix[at] {
            assert(chars@.subrange(0, prefix@.len() as int)[at as int] != prefix@[at as int]);
            return false;
        }
        at += 1;
    }
    assert(chars@.subrange(0, prefix@.len() as int) =~= prefix@);
    true
}

/// What one line of the configuration says of the port: see
/// [`spec_port_setting`].
pub fn port_setting(line: &str) -> (setting: Option<Result<u16, ConfigError>>)
    ensures
        setting == spec_port_setting(line@),
{
    let chars = chars_of(line);
    let key = chars_of(STREAM_PORT_KEY);
    if !starts_with(&chars, &key) {
        return None;
    }
    let first_start = skip(&chars, 0, true);
    let first_end = skip(&chars, first_start, false);
    let second_start = skip(&chars, first_end, true);
    let second_end = skip(&chars, second_start, false);
    if second_start >= chars.len() {
        return None;
    }
    match parse_port_between(&chars, second_start, second_end) {
        Some(port) => Some(Ok(port)),
        None => Some(Err(ConfigError::InvalidData)),
    }
}

/// The texts of a run of lines.
pub open spec fn spec_lines(lines: Seq<String>) -> Seq<Seq<char>> {
    Seq::new(lines.len(), |i: int| lines[i]@)
}

/// The camera that runs as a process of its own, as far as its configuration
/// describes it.
#[derive(Clone, Copy, Debug, PartialEq, Eq, Structural)]
pub struct MotionCamera {
    port: u16,
}

impl MotionCamera {
    /// The port that the camera streams on.
    pub closed spec fn spec_port(self) -> u16 {
        self.port
    }

    /// The camera that the lines of a configuration describe. Without a
    /// valid port setting there is no camera.
    pub fn new(lines: &Vec<String>) -> (camera: Result<Self, ConfigError>)
        ensures
            match camera {
                Ok(found) => spec_get_port(spec_lines(lines@)) == Ok::<u16, ConfigError>(
                    found.spec_port(),
                ),
                Err(error) => spec_get_port(spec_lines(lines@)) == Err::<u16, ConfigError>(error),
            },
    {
        match Self::get_port(lines) {
            Ok(port) => Ok(MotionCamera { port }),
            Err(error) => Err(error),
        }
    }

    /// Finds the port in the lines of a configuration: the first line that
    /// decides gives it or makes the configuration invalid.
    pub fn get_port(lines: &Vec<String>) -> (port: Result<u16, ConfigError>)
        ensures
            port == spec_get_port(spec_lines(lines@)),
    {
        let ghost texts = spec_lines(lines@);
        let mut index: usize = 0;
        assert(texts.subrange(0, texts.len() as int) =~= texts);
        while index < lines.len()
            invariant
                index <= lines.len(),
                texts == spec_lines(lines@),
                spec_get_port(texts) == spec_get_port(
                    texts.subrange(index as int, texts.len() as int),
                ),
            decreases lines.len() - index,
        {
            let ghost ahead = texts.subrange(index as int, texts.len() as int);
            match port_setting(lines[index].as_str()) {
                Some(decided) => {
                    return decided;
                },
                None => {},
            }
            assert(ahead.subrange(1, ahead.len() as int) =~= texts.subrange(
                index + 1,
                texts.len() as int,
            ));
            index += 1;
        }
        Err(ConfigError::NotFound)
    }

    /// The port that the camera streams on.
    pub fn port(&self) -> (port: u16)
        ensures
            port == self.spec_port(),
    {
        self.port
    }
}

/// The stand-in camera for a machine without one. It marks itself as running
/// by a lock file and streams nothing.
#[derive(Clone, Copy, Debug, PartialEq, Eq, Structural)]
pub struct FakeCamera;

impl FakeCamera {
    /// The path of the lock file, relative to where the server runs.
    pub fn get_lock_path() -> (path: &'static str)
        ensures
            path@ == "camera_active"@,
    {
        "camera_active"
    }

    /// The port that the stand-in camera claims to stream on.
    pub fn port(&self) -> (port: u16)
        ensures
            port == FAKE_CAMERA_PORT,
    {
        FAKE_CAMERA_PORT
    }
}

} // verus!
