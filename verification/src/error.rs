//! The error type shared by blueprints, executors and the interpreter.
//!
//! Fourteen POSIX errors have a name of their own; every other errno is kept
//! verbatim in [`SysError::Other`].

use vstd::prelude::*;
use vstd::string::*;

verus! {

/// An operating system error as blueprints see it.
#[derive(Debug, Clone, Copy, PartialEq, Eq, Hash, Structural)]
pub enum SysError {
    /// ENOENT
    NotFound,
    /// EACCES
    PermissionDenied,
    /// EAGAIN / EWOULDBLOCK
    WouldBlock,
    /// EINTR
    Interrupted,
    /// ETIMEDOUT
    TimedOut,
    /// ECONNRESET
    ConnectionReset,
    /// ECONNREFUSED
    ConnectionRefused,
    /// EPIPE
    BrokenPipe,
    /// ENOSPC / EDQUOT
    StorageFull,
    /// EINVAL
    InvalidInput,
    /// EEXIST
    AlreadyExists,
    /// ENOTDIR
    NotADirectory,
    /// EISDIR
    IsADirectory,
    /// EXDEV
    CrossDevice,
    /// Any other errno.
    Other(i32),
}

/// The errno that an error stands for.
pub open spec fn errno_of(e: SysError) -> i32 {
    match e {
        SysError::NotFound => 2,
        SysError::PermissionDenied => 13,
        SysError::WouldBlock => 11,
        SysError::Interrupted => 4,
        SysError::TimedOut => 110,
        SysError::ConnectionReset => 104,
        SysError::ConnectionRefused => 111,
        SysError::BrokenPipe => 32,
        SysError::StorageFull => 28,
        SysError::InvalidInput => 22,
        SysError::AlreadyExists => 17,
        SysError::NotADirectory => 20,
        SysError::IsADirectory => 21,
        SysError::CrossDevice => 18,
        SysError::Other(n) => n,
    }
}

/// The error that an errno reads as: the named variant that stands for it where
/// there is one, `Other` everywhere else.
pub open spec fn error_of_errno(n: i32) -> SysError {
    if n == 2 {
        SysError::NotFound
    } else if n == 13 {
        SysError::PermissionDenied
    } else if n == 11 {
        SysError::WouldBlock
    } else if n == 4 {
        SysError::Interrupted
    } else if n == 110 {
        SysError::TimedOut
    } else if n == 104 {
        SysError::ConnectionReset
    } else if n == 111 {
        SysError::ConnectionRefused
    } else if n == 32 {
        SysError::BrokenPipe
    } else if n == 28 {
        SysError::StorageFull
    } else if n == 22 {
        SysError::InvalidInput
    } else if n == 17 {
        SysError::AlreadyExists
    } else if n == 20 {
        SysError::NotADirectory
    } else if n == 21 {
        SysError::IsADirectory
    } else if n == 18 {
        SysError::CrossDevice
    } else {
        SysError::Other(n)
    }
}

/// Whether some named variant stands for this errno.
pub open spec fn is_named_errno(n: i32) -> bool {
    !(error_of_errno(n) is Other)
}

/// The error that an I/O error with this errno (or without one) reads as.
pub open spec fn error_of_raw(raw: Option<i32>) -> SysError {
    match raw {
        Some(n) => error_of_errno(n),
        None => SysError::Other(0),
    }
}

/// The variant's name as it is printed.
pub open spec fn name_of(e: SysError) -> Seq<char> {
    match e {
        SysError::NotFound => "NotFound"@,
        SysError::PermissionDenied => "PermissionDenied"@,
        SysError::WouldBlock => "WouldBlock"@,
        SysError::Interrupted => "Interrupted"@,
        SysError::TimedOut => "TimedOut"@,
        SysError::ConnectionReset => "ConnectionReset"@,
        SysError::ConnectionRefused => "ConnectionRefused"@,
        SysError::BrokenPipe => "BrokenPipe"@,
        SysError::StorageFull => "StorageFull"@,
        SysError::InvalidInput => "InvalidInput"@,
        SysError::AlreadyExists => "AlreadyExists"@,
        SysError::NotADirectory => "NotADirectory"@,
        SysError::IsADirectory => "IsADirectory"@,
        SysError::CrossDevice => "CrossDevice"@,
        SysError::Other(_) => "Other"@,
    }
}

/// One decimal digit.
pub open spec fn digit(d: nat) -> Seq<char> {
    if d == 0 {
        "0"@
    } else if d == 1 {
        "1"@
    } else if d == 2 {
        "2"@
    } else if d == 3 {
        "3"@
    } else if d == 4 {
        "4"@
    } else if d == 5 {
        "5"@
    } else if d == 6 {
        "6"@
    } else if d == 7 {
        "7"@
    } else if d == 8 {
        "8"@
    } else {
        "9"@
    }
}

/// A natural number in decimal, without leading zeros.
pub open spec fn decimal_nat(n: nat) -> Seq<char>
    decreases n,
{
    if n < 10 {
        digit(n)
    } else {
        decimal_nat(n / 10) + digit(n % 10)
    }
}

/// An integer in decimal.
pub open spec fn decimal(n: int) -> Seq<char> {
    if n < 0 {
        "-"@ + decimal_nat((-n) as nat)
    } else {
        decimal_nat(n as nat)
    }
}

/// The text of an error: `Name(errno n)`, or `Other(n)`.
pub open spec fn text_of(e: SysError) -> Seq<char> {
    match e {
        SysError::Other(n) => "Other("@ + decimal(n as int) + ")"@,
        _ => name_of(e) + "(errno "@ + decimal(errno_of(e) as int) + ")"@,
    }
}

fn digit_text(d: u32) -> (r: &'static str)
    requires
        d < 10,
    ensures
        r@ == digit(d as nat),
{
    match d {
        0 => "0",
        1 => "1",
        2 => "2",
        3 => "3",
        4 => "4",
        5 => "5",
        6 => "6",
        7 => "7",
        8 => "8",
        _ => "9",
    }
}

fn decimal_nat_text(n: u32) -> (r: String)
    ensures
        r@ == decimal_nat(n as nat),
    decreases n,
{
    if n < 10 {
        digit_text(n).to_owned()
    } else {
        let mut r = decimal_nat_text(n / 10);
        r.append(digit_text(n % 10));
        r
    }
}

fn decimal_text(n: i32) -> (r: String)
    ensures
        r@ == decimal(n as int),
{
    if n < 0 {
        let mut r = "-".to_owned();
        let magnitude: u32 = (0 - (n as i64)) as u32;
        r.append(decimal_nat_text(magnitude).as_str());
        r
    } else {
        decimal_nat_text(n as u32)
    }
}

impl SysError {
    /// The errno: the one that the variant stands for, or the one kept in `Other`.
    pub fn code(&self) -> (n: i32)
        ensures
            n == errno_of(*self),
    {
        match self {
            SysError::NotFound => 2,
            SysError::PermissionDenied => 13,
            SysError::WouldBlock => 11,
            SysError::Interrupted => 4,
            SysError::TimedOut => 110,
            SysError::ConnectionReset => 104,
            SysError::ConnectionRefused => 111,
            SysError::BrokenPipe => 32,
            SysError::StorageFull => 28,
            SysError::InvalidInput => 22,
            SysError::AlreadyExists => 17,
            SysError::NotADirectory => 20,
            SysError::IsADirectory => 21,
            SysError::CrossDevice => 18,
            SysError::Other(n) => *n,
        }
    }

    /// The error with this errno.
    pub fn from_errno(errno: i32) -> (e: Self)
        ensures
            e == error_of_errno(errno),
    {
        match errno {
            2 => SysError::NotFound,
            13 => SysError::PermissionDenied,
            11 => SysError::WouldBlock,
            4 => SysError::Interrupted,
            110 => SysError::TimedOut,
            104 => SysError::ConnectionReset,
            111 => SysError::ConnectionRefused,
            32 => SysError::BrokenPipe,
            28 => SysError::StorageFull,
            22 => SysError::InvalidInput,
            17 => SysError::AlreadyExists,
            20 => SysError::NotADirectory,
            21 => SysError::IsADirectory,
            18 => SysError::CrossDevice,
            n => SysError::Other(n),
        }
    }

    /// The error that an I/O error reads as, given its errno if it has one.
    pub fn from_raw(raw: Option<i32>) -> (e: Self)
        ensures
            e == error_of_raw(raw),
    {
        match raw {
            Some(n) => SysError::from_errno(n),
            None => SysError::Other(0),
        }
    }

    /// The variant's name.
    fn name(&self) -> (s: &'static str)
        ensures
            s@ == name_of(*self),
    {
        match self {
            SysError::NotFound => "NotFound",
            SysError::PermissionDenied => "PermissionDenied",
            SysError::WouldBlock => "WouldBlock",
            SysError::Interrupted => "Interrupted",
            SysError::TimedOut => "TimedOut",
            SysError::ConnectionReset => "ConnectionReset",
            SysError::ConnectionRefused => "ConnectionRefused",
            SysError::BrokenPipe => "BrokenPipe",
            SysError::StorageFull => "StorageFull",
            SysError::InvalidInput => "InvalidInput",
            SysError::AlreadyExists => "AlreadyExists",
            SysError::NotADirectory => "NotADirectory",
            SysError::IsADirectory => "IsADirectory",
            SysError::CrossDevice => "CrossDevice",
            SysError::Other(_) => "Other",
        }
    }

    /// The error's text, such as `NotFound(errno 2)` or `Other(38)`.
    pub fn to_string(&self) -> (s: String)
        ensures
            s@ == text_of(*self),
    {
        match self {
            SysError::Other(n) => {
                let mut s = "Other(".to_owned();
                s.append(decimal_text(*n).as_str());
                s.append(")");
                s
            },
            _ => {
                let mut s = self.name().to_owned();
                s.append("(errno ");
                s.append(decimal_text(self.code()).as_str());
                s.append(")");
                s
            },
        }
    }
}

/// `std::io::Error`, which carries an errno where it came from the system.
#[verifier::external_type_specification]
#[verifier::external_body]
pub struct ExIoError(std::io::Error);

/// The errno that a `std::io::Error` was made from, if it was made from one.
pub uninterp spec fn os_error_code(e: std::io::Error) -> Option<i32>;

/// `std::io::Error::raw_os_error` reads that errno; nothing more is claimed.
pub assume_specification[ std::io::Error::raw_os_error ](e: &std::io::Error) -> (r: Option<i32>)
    ensures
        r == os_error_code(*e),
;

impl vstd::std_specs::convert::FromSpecImpl<std::io::Error> for SysError {
    open spec fn obeys_from_spec() -> bool {
        true
    }

    open spec fn from_spec(e: std::io::Error) -> SysError {
        error_of_raw(os_error_code(e))
    }
}

impl From<std::io::Error> for SysError {
    fn from(e: std::io::Error) -> (r: Self) {
        SysError::from_raw(e.raw_os_error())
    }
}

/// Every errno reads as an error with that errno. Reading an error back from its
/// errno gives the error itself, except where `Other` holds an errno that has a
/// name: that one reads back under its name.
pub proof fn law_errno_roundtrip(e: SysError, n: i32)
    ensures
        errno_of(error_of_errno(n)) == n,
        error_of_errno(errno_of(error_of_errno(n))) == error_of_errno(n),
        !(e is Other && is_named_errno(errno_of(e))) ==> error_of_errno(errno_of(e)) == e,
{
}

/// Named errors have their POSIX numbers.
pub proof fn law_posix_numbers()
    ensures
        errno_of(SysError::NotFound) == 2,
        errno_of(SysError::Interrupted) == 4,
        errno_of(SysError::WouldBlock) == 11,
        errno_of(SysError::PermissionDenied) == 13,
        errno_of(SysError::AlreadyExists) == 17,
        errno_of(SysError::CrossDevice) == 18,
        errno_of(SysError::NotADirectory) == 20,
        errno_of(SysError::IsADirectory) == 21,
        errno_of(SysError::InvalidInput) == 22,
        errno_of(SysError::StorageFull) == 28,
        errno_of(SysError::BrokenPipe) == 32,
        errno_of(SysError::ConnectionReset) == 104,
        errno_of(SysError::TimedOut) == 110,
        errno_of(SysError::ConnectionRefused) == 111,
        error_of_raw(None) == SysError::Other(0),
        forall|n: i32| #[trigger] error_of_raw(Some(n)) == error_of_errno(n),
        forall|n: i32| errno_of(SysError::Other(n)) == n,
{
}

/// The number that decimal digits stand for.
pub open spec fn number_of(text: Seq<char>) -> nat
    decreases text.len(),
{
    if text.len() == 0 {
        0
    } else {
        number_of(text.drop_last()) * 10 + (text.last() as nat - 48) as nat
    }
}

proof fn lemma_digit(d: nat)
    requires
        d < 10,
    ensures
        digit(d).len() == 1,
        digit(d)[0] as nat == 48 + d,
{
    reveal_strlit("0");
    reveal_strlit("1");
    reveal_strlit("2");
    reveal_strlit("3");
    reveal_strlit("4");
    reveal_strlit("5");
    reveal_strlit("6");
    reveal_strlit("7");
    reveal_strlit("8");
    reveal_strlit("9");
}

/// A number in decimal reads as that number, consists of digits, and starts with a
/// zero only if it is zero.
pub proof fn law_decimal_reads_back(n: nat)
    ensures
        number_of(decimal_nat(n)) == n,
        decimal_nat(n).len() > 0,
        forall|i: int|
            0 <= i < decimal_nat(n).len() ==> 48 <= #[trigger] decimal_nat(n)[i] as nat <= 57,
        decimal_nat(n)[0] == '0' ==> n == 0,
    decreases n,
{
    if n < 10 {
        lemma_digit(n);
        let t = decimal_nat(n);
        reveal_with_fuel(number_of, 2);
        assert(t.drop_last() =~= Seq::empty());
        assert(t.last() == t[0]);
    } else {
        law_decimal_reads_back(n / 10);
        lemma_digit(n % 10);
        let t = decimal_nat(n);
        assert(t.drop_last() =~= decimal_nat(n / 10));
        assert(t.last() == digit(n % 10)[0]);
        assert(t[0] == decimal_nat(n / 10)[0]);
    }
}

/// An error is shown by its name and its number.
pub proof fn law_error_texts(e: SysError)
    ensures
        text_of(e) == (match e {
            SysError::NotFound => "NotFound"@ + "(errno "@ + decimal(2) + ")"@,
            SysError::PermissionDenied => "PermissionDenied"@ + "(errno "@ + decimal(13) + ")"@,
            SysError::WouldBlock => "WouldBlock"@ + "(errno "@ + decimal(11) + ")"@,
            SysError::Interrupted => "Interrupted"@ + "(errno "@ + decimal(4) + ")"@,
            SysError::TimedOut => "TimedOut"@ + "(errno "@ + decimal(110) + ")"@,
            SysError::ConnectionReset => "ConnectionReset"@ + "(errno "@ + decimal(104) + ")"@,
            SysError::ConnectionRefused => "ConnectionRefused"@ + "(errno "@ + decimal(111)
                + ")"@,
            SysError::BrokenPipe => "BrokenPipe"@ + "(errno "@ + decimal(32) + ")"@,
            SysError::StorageFull => "StorageFull"@ + "(errno "@ + decimal(28) + ")"@,
            SysError::InvalidInput => "InvalidInput"@ + "(errno "@ + decimal(22) + ")"@,
            SysError::AlreadyExists => "AlreadyExists"@ + "(errno "@ + decimal(17) + ")"@,
            SysError::NotADirectory => "NotADirectory"@ + "(errno "@ + decimal(20) + ")"@,
            SysError::IsADirectory => "IsADirectory"@ + "(errno "@ + decimal(21) + ")"@,
            SysError::CrossDevice => "CrossDevice"@ + "(errno "@ + decimal(18) + ")"@,
            SysError::Other(n) => "Other("@ + decimal(n as int) + ")"@,
        }),
        forall|n: int| n >= 0 ==> #[trigger] decimal(n) == decimal_nat(n as nat),
        forall|n: int| n < 0 ==> #[trigger] decimal(n) == "-"@ + decimal_nat((-n) as nat),
{
}

} // verus!
