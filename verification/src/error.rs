//! The failures that decoding can report, and what each says in words.

use vstd::prelude::*;
use vstd::string::StringExecFns;

verus! {

/// Failure of a length-checked sync-safe conversion.
#[derive(Clone, Copy, Debug, PartialEq, Eq, Structural)]
pub enum SyncSafeError {
    /// The bytes given were not exactly four; carries the length that was given.
    IncorrectLength(usize),
}

/// Failure of one of the parsers that read from a byte source.
#[derive(Clone, Copy, Debug, PartialEq, Eq, Structural)]
pub enum ID3Error {
    /// The ten bytes read are not a valid tag header.
    HeaderNotFound,
    /// The source ran out before the bytes asked for were available.
    NotEnoughBytes,
}

/// The decimal digits of `n`, most significant first, without leading zeros.
pub open spec fn spec_decimal(n: nat) -> Seq<char>
    decreases n,
{
    if n < 10 {
        seq![(48 + n) as char]
    } else {
        spec_decimal(n / 10).push((48 + n % 10) as char)
    }
}

/// Writes `n` in decimal.
fn decimal(n: usize) -> (s: String)
    ensures
        s@ == spec_decimal(n as nat),
    decreases n,
{
    let digit: u8 = 48 + (n % 10) as u8;
    if n < 10 {
        let mut s = String::new();
        s.push(digit as char);
        assert(s@ =~= spec_decimal(n as nat));
        s
    } else {
        let mut s = decimal(n / 10);
        s.push(digit as char);
        s
    }
}

impl SyncSafeError {
    /// The message of this error, as a sequence of characters.
    pub open spec fn spec_message(self) -> Seq<char> {
        match self {
            SyncSafeError::IncorrectLength(length) => "expected '4' given: '"@ + spec_decimal(
                length as nat,
            ) + "'"@,
        }
    }

    /// Says in words what went wrong.
    pub fn message(&self) -> (s: String)
        ensures
            s@ == self.spec_message(),
    {
        match *self {
            SyncSafeError::IncorrectLength(length) => {
                let mut s = String::from_str("expected '4' given: '");
                s.append(decimal(length).as_str());
                s.append("'");
                s
            },
        }
    }
}

impl ID3Error {
    /// The message of this error, as a sequence of characters.
    pub open spec fn spec_message(self) -> Seq<char> {
        match self {
            ID3Error::HeaderNotFound => "Header not found in the given bytes"@,
            ID3Error::NotEnoughBytes => "Not enough bytes to parse in reader"@,
        }
    }

    /// Says in words what went wrong.
    pub fn message(&self) -> (s: String)
        ensures
            s@ == self.spec_message(),
    {
        match *self {
            ID3Error::HeaderNotFound => String::from_str("Header not found in the given bytes"),
            ID3Error::NotEnoughBytes => String::from_str("Not enough bytes to parse in reader"),
        }
    }
}

} // verus!
