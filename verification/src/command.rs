use vstd::prelude::*;
use vstd::string::StringSliceAdditionalSpecFns;

verus! {

/// What the control role can ask of the audio-processing role. A message is
/// acted on between two frames, never inside one.
#[derive(Debug, Copy, Clone, PartialEq, Eq, Structural)]
pub enum ControlMessage {
    /// Leave the loop.
    Stop,
    /// Put the channel with this identifier back into the frames.
    Activate(usize),
    /// Take the channel with this identifier out of the frames.
    Deactivate(usize),
}

/// The operator's word for `ControlMessage::Stop`: `stop`.
pub const STOP_WORD: [u8; 4] = [115, 116, 111, 112];

/// The operator's word for `ControlMessage::Activate`, with the blank that
/// parts it from the channel's identifier: `activate `.
pub const ACTIVATE_WORD: [u8; 9] = [97, 99, 116, 105, 118, 97, 116, 101, 32];

/// The operator's word for `ControlMessage::Deactivate`, with the blank that
/// parts it from the channel's identifier: `deactivate `.
pub const DEACTIVATE_WORD: [u8; 11] = [100, 101, 97, 99, 116, 105, 118, 97, 116, 101, 32];

/// `byte` is one of the characters `0` to `9`.
pub open spec fn is_digit(byte: u8) -> bool {
    48 <= byte <= 57
}

/// The number that the decimal digits `digits` write.
pub open spec fn decimal(digits: Seq<u8>) -> nat
    decreases digits.len(),
{
    if digits.len() == 0 {
        0
    } else {
        decimal(digits.drop_last()) * 10 + (digits.last() - 48) as nat
    }
}

/// The channel identifier that `digits` write: at least one character, all
/// of them decimal digits, and a number that a `usize` can hold.
pub open spec fn number_of(digits: Seq<u8>) -> Option<usize> {
    if digits.len() > 0 && (forall|i: int| 0 <= i < digits.len() ==> is_digit(#[trigger] digits[i]))
        && decimal(digits) <= usize::MAX {
        Some(decimal(digits) as usize)
    } else {
        None
    }
}

/// `line` begins with `word`.
pub open spec fn has_prefix(line: Seq<u8>, word: Seq<u8>) -> bool {
    line.len() >= word.len() && line.subrange(0, word.len() as int) == word
}

/// What is left of `line` behind its first `n` bytes.
pub open spec fn tail(line: Seq<u8>, n: int) -> Seq<u8> {
    line.subrange(n, line.len() as int)
}

/// The message that the operator's line `line` asks for: `stop`, or
/// `activate` or `deactivate`, one blank and a channel identifier in decimal
/// digits. Any other line asks for nothing.
pub open spec fn command_of(line: Seq<u8>) -> Option<ControlMessage> {
    if line == STOP_WORD@ {
        Some(ControlMessage::Stop)
    } else if has_prefix(line, ACTIVATE_WORD@) {
        match number_of(tail(line, 9)) {
            Some(id) => Some(ControlMessage::Activate(id)),
            None => None,
        }
    } else if has_prefix(line, DEACTIVATE_WORD@) {
        match number_of(tail(line, 11)) {
            Some(id) => Some(ControlMessage::Deactivate(id)),
            None => None,
        }
    } else {
        None
    }
}

/// Digits that follow a number only make it larger.
proof fn lemma_decimal_grows(digits: Seq<u8>, k: int)
    requires
        0 <= k <= digits.len(),
        forall|i: int| 0 <= i < digits.len() ==> is_digit(#[trigger] digits[i]),
    ensures
        decimal(digits.subrange(0, k)) <= decimal(digits),
    decreases digits.len() - k,
{
    if k == digits.len() {
        assert(digits.subrange(0, k) =~= digits);
    } else {
        let longer = digits.subrange(0, k + 1);
        assert(longer.drop_last() =~= digits.subrange(0, k));
        assert(is_digit(digits[k]));
        assert(longer.last() == digits[k]);
        lemma_decimal_grows(digits, k + 1);
    }
}

fn begins_with(line: &[u8], word: &[u8]) -> (yes: bool)
    ensures
        yes == has_prefix(line@, word@),
{
    let n = word.len();
    if line.len() < n {
        return false;
    }
    let mut i: usize = 0;
    while i < n
        invariant
            n == word@.len(),
            n <= line@.len(),
            i <= n,
            forall|k: int| 0 <= k < i ==> line@[k] == word@[k],
        decreases n - i,
    {
        if line[i] != word[i] {
            assert(line@.subrange(0, n as int)[i as int] == line@[i as int]);
            return false;
        }
        i += 1;
    }
    assert(line@.subrange(0, n as int) =~= word@);
    true
}

/// Reads the channel identifier that stands behind the first `from` bytes of
/// `line`.
fn read_number(line: &[u8], from: usize) -> (number: Option<usize>)
    requires
        from <= line@.len(),
    ensures
        number == number_of(tail(line@, from as int)),
{
    let n = line.len();
    let ghost digits = tail(line@, from as int);
    if from == n {
        return None;
    }
    let mut value: usize = 0;
    let mut i: usize = from;
    assert(digits.subrange(0, 0) =~= Seq::empty());
    while i < n
        invariant
            n == line@.len(),
            from <= i <= n,
            digits == tail(line@, from as int),
            forall|k: int| 0 <= k < i - from ==> is_digit(#[trigger] digits[k]),
            value == decimal(digits.subrange(0, i - from)),
        decreases n - i,
    {
        let byte = line[i];
        assert(digits[i - from] == byte);
        if byte < 48 || byte > 57 {
            return None;
        }
        let digit = (byte - 48) as usize;
        proof {
            let longer = digits.subrange(0, i - from + 1);
            assert(longer.drop_last() =~= digits.subrange(0, i - from));
            assert(longer.last() == byte);
        }
        if value > (usize::MAX - digit) / 10 {
            proof {
                if forall|k: int| 0 <= k < digits.len() ==> is_digit(#[trigger] digits[k]) {
                    lemma_decimal_grows(digits, i - from + 1);
                }
            }
            return None;
        }
        value = value * 10 + digit;
        i += 1;
    }
    assert(digits.subrange(0, n - from) =~= digits);
    Some(value)
}

/// Reads one line of the operator, as bytes.
pub fn parse_command(line: &[u8]) -> (message: Option<ControlMessage>)
    ensures
        message == command_of(line@),
{
    if line.len() == 4 && begins_with(line, STOP_WORD.as_slice()) {
        assert(line@.subrange(0, 4) =~= line@);
        return Some(ControlMessage::Stop);
    }
    if begins_with(line, ACTIVATE_WORD.as_slice()) {
        return match read_number(line, 9) {
            Some(id) => Some(ControlMessage::Activate(id)),
            None => None,
        };
    }
    if begins_with(line, DEACTIVATE_WORD.as_slice()) {
        return match read_number(line, 11) {
            Some(id) => Some(ControlMessage::Deactivate(id)),
            None => None,
        };
    }
    assert(line@.len() == 4 ==> line@.subrange(0, 4) =~= line@);
    None
}

/// Reads one line of the operator and says which message it asks the
/// control role to send, if any.
pub fn handle_command_line(line: &str) -> (message: Option<ControlMessage>)
    ensures
        message == command_of(line.spec_bytes()),
{
    parse_command(line.as_bytes())
}

} // verus!
