//! Error taxonomy for the tunneling library.
//!
//! Every failure is local to one connection: transport failures are
//! `IoError`, malformed frames and unexpected message types are protocol
//! violations reported through `E`, and conversion failures (bad UTF-8,
//! malformed JSON) are `ConvertError`.
use vstd::prelude::*;

verus! {

/// The library's error type. Each variant carries a human-readable message.
#[derive(Debug)]
pub enum NfError {
    /// Socket closed or transport failure; the connection ends silently.
    IoError(String),
    /// A required key is missing.
    KeyError(String),
    /// A required value is absent.
    NoneError(String),
    /// General error: protocol violations, crypto failures, chain failures.
    E(String),
    /// Conversion failure: invalid UTF-8 or malformed JSON.
    ConvertError(String),
}

pub type NfResult<T> = Result<T, NfError>;

impl NfError {
    /// The message carried by this error, as a sequence of characters.
    pub open spec fn spec_description(self) -> Seq<char> {
        match self {
            NfError::IoError(e) => e@,
            NfError::KeyError(e) => e@,
            NfError::NoneError(e) => e@,
            NfError::E(e) => e@,
            NfError::ConvertError(e) => e@,
        }
    }

    /// Returns the message carried by this error.
    pub fn description(&self) -> (r: String)
        ensures
            r@ == self.spec_description(),
    {
        match self {
            NfError::IoError(e) => e.clone(),
            NfError::KeyError(e) => e.clone(),
            NfError::NoneError(e) => e.clone(),
            NfError::E(e) => e.clone(),
            NfError::ConvertError(e) => e.clone(),
        }
    }

    /// Returns the same message as `description`.
    pub fn to_string(&self) -> (r: String)
        ensures
            r@ == self.spec_description(),
    {
        self.description()
    }
}

/// Status codes used in handshake acknowledgements: zero means success.
#[derive(Debug, Clone, Copy, PartialEq, Eq, Structural)]
pub enum NfErrorCode {
    Success,
    Fail,
}

impl NfErrorCode {
    /// The numeric value of this code on the wire.
    pub open spec fn spec_code(self) -> i32 {
        match self {
            NfErrorCode::Success => 0,
            NfErrorCode::Fail => (-1) as i32,
        }
    }

    /// Returns the numeric value of this code.
    pub fn code(&self) -> (r: i32)
        ensures
            r == self.spec_code(),
    {
        match self {
            NfErrorCode::Success => 0,
            NfErrorCode::Fail => -1,
        }
    }
}

/// The character of one decimal digit.
pub open spec fn spec_digit_char(d: int) -> char {
    if d == 0 {
        '0'
    } else if d == 1 {
        '1'
    } else if d == 2 {
        '2'
    } else if d == 3 {
        '3'
    } else if d == 4 {
        '4'
    } else if d == 5 {
        '5'
    } else if d == 6 {
        '6'
    } else if d == 7 {
        '7'
    } else if d == 8 {
        '8'
    } else {
        '9'
    }
}

/// The decimal digits of `n` as characters, most significant first.
pub open spec fn spec_dec_chars(n: int) -> Seq<char>
    recommends
        n >= 0,
    decreases n,
{
    if n < 10 {
        seq![spec_digit_char(n)]
    } else {
        spec_dec_chars(n / 10).push(spec_digit_char(n % 10))
    }
}

/// One formatted entry of an error chain: a line break, the entry's index,
/// a dash, and its message.
pub open spec fn spec_chain_entry(i: int, msg: Seq<char>) -> Seq<char> {
    seq!['\n'] + spec_dec_chars(i) + seq![' ', '-', ' '] + msg
}

/// The formatted error chain from entry `i` on.
pub open spec fn spec_chain_from(msgs: Seq<Seq<char>>, i: int) -> Seq<char>
    decreases msgs.len() - i,
    when 0 <= i <= msgs.len()
{
    if i >= msgs.len() {
        Seq::empty()
    } else {
        spec_chain_entry(i, msgs[i]) + spec_chain_from(msgs, i + 1)
    }
}

/// The whole formatted error chain.
pub open spec fn spec_chain_text(msgs: Seq<Seq<char>>) -> Seq<char> {
    spec_chain_from(msgs, 0)
}

/// Returns the one-character string for a decimal digit.
fn digit_str(d: u64) -> (r: &'static str)
    requires
        d < 10,
    ensures
        r@ == seq![spec_digit_char(d as int)],
{
    let r: &'static str = if d == 0 {
        "0"
    } else if d == 1 {
        "1"
    } else if d == 2 {
        "2"
    } else if d == 3 {
        "3"
    } else if d == 4 {
        "4"
    } else if d == 5 {
        "5"
    } else if d == 6 {
        "6"
    } else if d == 7 {
        "7"
    } else if d == 8 {
        "8"
    } else {
        "9"
    };
    proof {
        reveal_strlit("0");
        reveal_strlit("1");
        reveal_strlit("2");
        reveal_strlit("3");
        reveal_strlit("4");
        reveal_strlit("5");
        reveal_strlit("6");
        reveal_strlit("7");
        reveal_strlit("8");
        reveal_strlit("9");
        assert(r@ =~= seq![spec_digit_char(d as int)]);
    }
    r
}

/// Appends the decimal digits of `n`, most significant first.
fn push_dec_chars(out: &mut String, n: u64)
    ensures
        final(out)@ == old(out)@ + spec_dec_chars(n as int),
    decreases n,
{
    if n < 10 {
        out.append(digit_str(n));
        assert(out@ =~= old(out)@ + spec_dec_chars(n as int));
    } else {
        push_dec_chars(out, n / 10);
        out.append(digit_str(n % 10));
        assert(out@ =~= old(out)@ + spec_dec_chars(n as int));
    }
}

/// Formats an error cause chain — the messages of an error and its causes,
/// outermost first — as one entry per line: a line break, the entry's
/// index, a dash, and its message.
pub fn anyhow_error_to_chain(chain: Vec<String>) -> (r: String)
    ensures
        r@ == spec_chain_text(Seq::new(chain@.len(), |k: int| chain@[k]@)),
{
    let ghost msgs = Seq::new(chain@.len(), |k: int| chain@[k]@);
    let mut err = String::new();
    let n = chain.len();
    let mut i: usize = 0;
    proof {
        assert(Seq::<char>::empty() + spec_chain_from(msgs, 0) =~= spec_chain_from(msgs, 0));
    }
    while i < n
        invariant
            n == chain@.len(),
            i <= n,
            msgs == Seq::new(chain@.len(), |k: int| chain@[k]@),
            err@ + spec_chain_from(msgs, i as int) == spec_chain_text(msgs),
        decreases n - i,
    {
        let ghost pre = err@;
        err.append("\n");
        push_dec_chars(&mut err, i as u64);
        err.append(" - ");
        err.append(chain[i].as_str());
        proof {
            reveal_strlit("\n");
            reveal_strlit(" - ");
            assert(msgs[i as int] == chain@[i as int]@);
            assert(err@ =~= pre + spec_chain_entry(i as int, msgs[i as int]));
            assert(pre + (spec_chain_entry(i as int, msgs[i as int]) + spec_chain_from(
                msgs,
                i + 1,
            )) =~= (pre + spec_chain_entry(i as int, msgs[i as int])) + spec_chain_from(
                msgs,
                i + 1,
            ));
        }
        i = i + 1;
    }
    proof {
        assert(spec_chain_from(msgs, n as int) =~= Seq::<char>::empty());
        assert(err@ + Seq::<char>::empty() =~= err@);
    }
    err
}

} // verus!
