//! The self-test mode: argument handling and the pure decisions of the
//! orchestrator and its child processes.

pub mod hex;
pub mod orchestrator;
pub mod spawn;

use vstd::prelude::*;

use crate::text::{
    decimal_digits, decimal_value, lemma_decimal_digits_first, lemma_parse_decimal_roundtrip, parse_unsigned,
    parse_unsigned_text, text_equals, IntErrorKind,
};
use self::hex::{
    hex_text, lemma_uuid_hex_roundtrip, parse_uuid_hex, uuid_hex_panics, uuid_outcome, UuidError, UuidOutcome,
};

verus! {

/// The part a self-test process plays.
#[derive(Debug, Clone, Copy, PartialEq, Eq, Structural)]
pub enum Role {
    Orchestrator,
    Peer,
    Renderer,
    Display,
}

/// The role a command-line name selects.
pub open spec fn role_named(s: Seq<char>) -> Option<Role> {
    if s == "orchestrator"@ {
        Some(Role::Orchestrator)
    } else if s == "peer"@ {
        Some(Role::Peer)
    } else if s == "renderer"@ {
        Some(Role::Renderer)
    } else if s == "display"@ {
        Some(Role::Display)
    } else {
        None
    }
}

/// The command-line name of a role.
pub open spec fn role_name(r: Role) -> Seq<char> {
    match r {
        Role::Orchestrator => "orchestrator"@,
        Role::Peer => "peer"@,
        Role::Renderer => "renderer"@,
        Role::Display => "display"@,
    }
}

/// The command-line name of a role.
pub fn role_arg(r: Role) -> (s: &'static str)
    ensures
        s@ == role_name(r),
{
    match r {
        Role::Orchestrator => "orchestrator",
        Role::Peer => "peer",
        Role::Renderer => "renderer",
        Role::Display => "display",
    }
}

/// The settings of a self-test process, read from its command line.
#[derive(Debug, Clone)]
pub struct TestArgs {
    pub role: Role,
    pub vk_uuid: Option<[u8; 16]>,
    pub socket: Option<String>,
    pub slot: u32,
    pub device_idx: Option<usize>,
    pub skip_fanout: bool,
}

/// The mathematical content of `TestArgs`.
pub struct ArgsModel {
    pub role: Role,
    pub vk_uuid: Option<Seq<u8>>,
    pub socket: Option<Seq<char>>,
    pub slot: u32,
    pub device_idx: Option<usize>,
    pub skip_fanout: bool,
}

impl TestArgs {
    /// The content of these settings.
    pub open spec fn model(&self) -> ArgsModel {
        ArgsModel {
            role: self.role,
            vk_uuid: match self.vk_uuid {
                Some(u) => Some(u@),
                None => None,
            },
            socket: match self.socket {
                Some(s) => Some(s@),
                None => None,
            },
            slot: self.slot,
            device_idx: self.device_idx,
            skip_fanout: self.skip_fanout,
        }
    }
}

/// The settings before any argument is read.
pub open spec fn default_args() -> ArgsModel {
    ArgsModel {
        role: Role::Orchestrator,
        vk_uuid: None,
        socket: None,
        slot: 0,
        device_idx: None,
        skip_fanout: false,
    }
}

/// A flag that takes a value.
#[derive(Debug, Clone, Copy, PartialEq, Eq, Structural)]
pub enum Flag {
    Role,
    VkUuid,
    Socket,
    Slot,
    Device,
}

/// Why a self-test command line was refused.
#[derive(Debug, Clone)]
pub enum ArgError {
    /// The flag is the last argument, so its value is missing.
    MissingValue(Flag),
    /// The value of `--role` names no role.
    UnknownRole(String),
    /// The value of `--vk-uuid` is not a UUID.
    BadUuid(UuidError),
    /// The value of `--slot` or `--device` is not a number of its type.
    BadNumber(IntErrorKind),
    /// An argument that is no flag of the self test.
    UnknownArg(String),
}

/// The outcome of reading a command line.
pub enum ArgOutcome {
    Parsed(ArgsModel),
    MissingValue(Flag),
    UnknownRole(Seq<char>),
    BadUuid(UuidError),
    BadNumber(IntErrorKind),
    UnknownArg(Seq<char>),
    /// Reading the UUID value panics (see `UuidOutcome::Panics`).
    Panics,
}

impl ArgError {
    /// The outcome this error reports.
    pub open spec fn outcome(&self) -> ArgOutcome {
        match self {
            ArgError::MissingValue(f) => ArgOutcome::MissingValue(*f),
            ArgError::UnknownRole(s) => ArgOutcome::UnknownRole(s@),
            ArgError::BadUuid(e) => ArgOutcome::BadUuid(*e),
            ArgError::BadNumber(e) => ArgOutcome::BadNumber(*e),
            ArgError::UnknownArg(s) => ArgOutcome::UnknownArg(s@),
        }
    }
}

/// Reads the arguments from position `i` on into `acc`. Each flag that
/// takes a value consumes the next argument whatever it is; the first
/// error ends the reading.
pub open spec fn parse_from(args: Seq<Seq<char>>, i: int, acc: ArgsModel) -> ArgOutcome
    decreases args.len() - i,
{
    if i < 0 || i >= args.len() {
        ArgOutcome::Parsed(acc)
    } else {
        let a = args[i];
        if a == "--test"@ {
            parse_from(args, i + 1, acc)
        } else if a == "--skip-fanout"@ {
            parse_from(args, i + 1, ArgsModel { skip_fanout: true, ..acc })
        } else if a == "--role"@ {
            if i + 1 >= args.len() {
                ArgOutcome::MissingValue(Flag::Role)
            } else {
                match role_named(args[i + 1]) {
                    Some(r) => parse_from(args, i + 2, ArgsModel { role: r, ..acc }),
                    None => ArgOutcome::UnknownRole(args[i + 1]),
                }
            }
        } else if a == "--vk-uuid"@ {
            if i + 1 >= args.len() {
                ArgOutcome::MissingValue(Flag::VkUuid)
            } else {
                match uuid_outcome(args[i + 1]) {
                    UuidOutcome::Value(b) => parse_from(args, i + 2, ArgsModel { vk_uuid: Some(b), ..acc }),
                    UuidOutcome::WrongLength(n) => ArgOutcome::BadUuid(UuidError::WrongLength(n as usize)),
                    UuidOutcome::InvalidHex => ArgOutcome::BadUuid(UuidError::InvalidHex),
                    UuidOutcome::Panics => ArgOutcome::Panics,
                }
            }
        } else if a == "--socket"@ {
            if i + 1 >= args.len() {
                ArgOutcome::MissingValue(Flag::Socket)
            } else {
                parse_from(args, i + 2, ArgsModel { socket: Some(args[i + 1]), ..acc })
            }
        } else if a == "--slot"@ {
            if i + 1 >= args.len() {
                ArgOutcome::MissingValue(Flag::Slot)
            } else {
                match parse_unsigned(args[i + 1], u32::MAX as nat) {
                    Ok(v) => parse_from(args, i + 2, ArgsModel { slot: v as u32, ..acc }),
                    Err(e) => ArgOutcome::BadNumber(e),
                }
            }
        } else if a == "--device"@ {
            if i + 1 >= args.len() {
                ArgOutcome::MissingValue(Flag::Device)
            } else {
                match parse_unsigned(args[i + 1], usize::MAX as nat) {
                    Ok(v) => parse_from(args, i + 2, ArgsModel { device_idx: Some(v as usize), ..acc }),
                    Err(e) => ArgOutcome::BadNumber(e),
                }
            }
        } else {
            ArgOutcome::UnknownArg(a)
        }
    }
}

/// The texts of a list of strings.
pub open spec fn arg_texts(argv: Seq<String>) -> Seq<Seq<char>> {
    argv.map_values(|s: String| s@)
}

/// Reading a whole command line: the program name is skipped.
pub open spec fn parse_args(argv: Seq<String>) -> ArgOutcome {
    parse_from(arg_texts(argv), 1, default_args())
}


impl TestArgs {
    /// Reads the self-test settings from a command line whose first entry
    /// is the program name. Flags may come in any order and repeat (the
    /// last one wins); "--test" is accepted and ignored.
    pub fn parse(argv: &[String]) -> (r: Result<TestArgs, ArgError>)
        requires
            !(parse_args(argv@) is Panics),
        ensures
            match r {
                Ok(a) => parse_args(argv@) == ArgOutcome::Parsed(a.model()),
                Err(e) => parse_args(argv@) == e.outcome(),
            },
    {
        let ghost args = arg_texts(argv@);
        let mut out = TestArgs {
            role: Role::Orchestrator,
            vk_uuid: None,
            socket: None,
            slot: 0,
            device_idx: None,
            skip_fanout: false,
        };
        assert(out.model() == default_args());
        let n = argv.len();
        let mut i: usize = 1;
        while i < n
            invariant
                n == argv@.len(),
                args == arg_texts(argv@),
                args.len() == n,
                i >= 1,
                !(parse_args(argv@) is Panics),
                parse_args(argv@) == parse_from(args, i as int, out.model()),
            decreases n - i,
        {
            let a: &str = argv[i].as_str();
            assert(args[i as int] == a@);
            if text_equals(a, "--test") {
                i = i + 1;
            } else if text_equals(a, "--skip-fanout") {
                out.skip_fanout = true;
                i = i + 1;
            } else if text_equals(a, "--role") {
                if i + 1 >= n {
                    return Err(ArgError::MissingValue(Flag::Role));
                }
                let v: &str = argv[i + 1].as_str();
                assert(args[i + 1] == v@);
                if text_equals(v, "orchestrator") {
                    out.role = Role::Orchestrator;
                } else if text_equals(v, "peer") {
                    out.role = Role::Peer;
                } else if text_equals(v, "renderer") {
                    out.role = Role::Renderer;
                } else if text_equals(v, "display") {
                    out.role = Role::Display;
                } else {
                    return Err(ArgError::UnknownRole(v.to_owned()));
                }
                i = i + 2;
            } else if text_equals(a, "--vk-uuid") {
                if i + 1 >= n {
                    return Err(ArgError::MissingValue(Flag::VkUuid));
                }
                let v: &str = argv[i + 1].as_str();
                assert(args[i + 1] == v@);
                match parse_uuid_hex(v) {
                    Ok(b) => {
                        out.vk_uuid = Some(b);
                    },
                    Err(e) => {
                        return Err(ArgError::BadUuid(e));
                    },
                }
                i = i + 2;
            } else if text_equals(a, "--socket") {
                if i + 1 >= n {
                    return Err(ArgError::MissingValue(Flag::Socket));
                }
                let v: &str = argv[i + 1].as_str();
                assert(args[i + 1] == v@);
                out.socket = Some(v.to_owned());
                i = i + 2;
            } else if text_equals(a, "--slot") {
                if i + 1 >= n {
                    return Err(ArgError::MissingValue(Flag::Slot));
                }
                let v: &str = argv[i + 1].as_str();
                assert(args[i + 1] == v@);
                match parse_unsigned_text(v, u32::MAX as u64) {
                    Ok(x) => {
                        out.slot = x as u32;
                    },
                    Err(e) => {
                        return Err(ArgError::BadNumber(e));
                    },
                }
                i = i + 2;
            } else if text_equals(a, "--device") {
                if i + 1 >= n {
                    return Err(ArgError::MissingValue(Flag::Device));
                }
                let v: &str = argv[i + 1].as_str();
                assert(args[i + 1] == v@);
                match parse_unsigned_text(v, usize::MAX as u64) {
                    Ok(x) => {
                        out.device_idx = Some(x as usize);
                    },
                    Err(e) => {
                        return Err(ArgError::BadNumber(e));
                    },
                }
                i = i + 2;
            } else {
                return Err(ArgError::UnknownArg(a.to_owned()));
            }
        }
        Ok(out)
    }
}


/// Whether reading a command line panics does not depend on the settings
/// read so far.
pub proof fn lemma_panics_independent_of_settings(args: Seq<Seq<char>>, i: int, a1: ArgsModel, a2: ArgsModel)
    ensures
        (parse_from(args, i, a1) is Panics) == (parse_from(args, i, a2) is Panics),
    decreases args.len() - i,
{
    if 0 <= i < args.len() {
        let a = args[i];
        if a == "--test"@ {
            lemma_panics_independent_of_settings(args, i + 1, a1, a2);
        } else if a == "--skip-fanout"@ {
            lemma_panics_independent_of_settings(args, i + 1, ArgsModel { skip_fanout: true, ..a1 }, ArgsModel { skip_fanout: true, ..a2 });
        } else if i + 1 < args.len() {
            let v = args[i + 1];
            if a == "--role"@ {
                match role_named(v) {
                    Some(r) => lemma_panics_independent_of_settings(args, i + 2, ArgsModel { role: r, ..a1 }, ArgsModel { role: r, ..a2 }),
                    None => {},
                }
            } else if a == "--vk-uuid"@ {
                match uuid_outcome(v) {
                    UuidOutcome::Value(b) => lemma_panics_independent_of_settings(args, i + 2, ArgsModel { vk_uuid: Some(b), ..a1 }, ArgsModel { vk_uuid: Some(b), ..a2 }),
                    _ => {},
                }
            } else if a == "--socket"@ {
                lemma_panics_independent_of_settings(args, i + 2, ArgsModel { socket: Some(v), ..a1 }, ArgsModel { socket: Some(v), ..a2 });
            } else if a == "--slot"@ {
                match parse_unsigned(v, u32::MAX as nat) {
                    Ok(x) => lemma_panics_independent_of_settings(args, i + 2, ArgsModel { slot: x as u32, ..a1 }, ArgsModel { slot: x as u32, ..a2 }),
                    Err(_) => {},
                }
            } else if a == "--device"@ {
                match parse_unsigned(v, usize::MAX as nat) {
                    Ok(x) => lemma_panics_independent_of_settings(args, i + 2, ArgsModel { device_idx: Some(x as usize), ..a1 }, ArgsModel { device_idx: Some(x as usize), ..a2 }),
                    Err(_) => {},
                }
            }
        }
    }
}

/// The flags of the self test, none of which is a decimal number.
proof fn lemma_decimal_is_no_flag(n: nat)
    ensures
        decimal_digits(n) != "--test"@,
        decimal_digits(n) != "--skip-fanout"@,
        decimal_digits(n) != "--role"@,
        decimal_digits(n) != "--vk-uuid"@,
        decimal_digits(n) != "--socket"@,
        decimal_digits(n) != "--slot"@,
        decimal_digits(n) != "--device"@,
{
    reveal_strlit("--test");
    reveal_strlit("--skip-fanout");
    reveal_strlit("--role");
    reveal_strlit("--vk-uuid");
    reveal_strlit("--socket");
    reveal_strlit("--slot");
    reveal_strlit("--device");
    lemma_decimal_digits_first(n);
    let d = decimal_digits(n);
    assert(decimal_value(d[0]) is Some);
    assert(d[0] != '-');
    assert(("--test"@)[0] == '-');
    assert(("--skip-fanout"@)[0] == '-');
    assert(("--role"@)[0] == '-');
    assert(("--vk-uuid"@)[0] == '-');
    assert(("--socket"@)[0] == '-');
    assert(("--slot"@)[0] == '-');
    assert(("--device"@)[0] == '-');
}

/// The flags of the self test are seven different texts.
proof fn lemma_flags_distinct()
    ensures
        "--skip-fanout"@ != "--test"@,
        "--role"@ != "--test"@,
        "--role"@ != "--skip-fanout"@,
        "--vk-uuid"@ != "--test"@,
        "--vk-uuid"@ != "--skip-fanout"@,
        "--vk-uuid"@ != "--role"@,
        "--socket"@ != "--test"@,
        "--socket"@ != "--skip-fanout"@,
        "--socket"@ != "--role"@,
        "--socket"@ != "--vk-uuid"@,
        "--slot"@ != "--test"@,
        "--slot"@ != "--skip-fanout"@,
        "--slot"@ != "--role"@,
        "--slot"@ != "--vk-uuid"@,
        "--slot"@ != "--socket"@,
        "--device"@ != "--test"@,
        "--device"@ != "--skip-fanout"@,
        "--device"@ != "--role"@,
        "--device"@ != "--vk-uuid"@,
        "--device"@ != "--socket"@,
        "--device"@ != "--slot"@,
{
    reveal_strlit("--test");
    reveal_strlit("--skip-fanout");
    reveal_strlit("--role");
    reveal_strlit("--vk-uuid");
    reveal_strlit("--socket");
    reveal_strlit("--slot");
    reveal_strlit("--device");
    assert(("--skip-fanout"@)[2] != ("--test"@)[2]);
    assert(("--role"@)[2] != ("--test"@)[2]);
    assert(("--role"@)[2] != ("--skip-fanout"@)[2]);
    assert(("--vk-uuid"@)[2] != ("--test"@)[2]);
    assert(("--vk-uuid"@)[2] != ("--skip-fanout"@)[2]);
    assert(("--vk-uuid"@)[2] != ("--role"@)[2]);
    assert(("--socket"@)[2] != ("--test"@)[2]);
    assert(("--socket"@)[3] != ("--skip-fanout"@)[3]);
    assert(("--socket"@)[2] != ("--role"@)[2]);
    assert(("--socket"@)[2] != ("--vk-uuid"@)[2]);
    assert(("--slot"@)[2] != ("--test"@)[2]);
    assert(("--slot"@)[3] != ("--skip-fanout"@)[3]);
    assert(("--slot"@)[2] != ("--role"@)[2]);
    assert(("--slot"@)[2] != ("--vk-uuid"@)[2]);
    assert(("--slot"@)[3] != ("--socket"@)[3]);
    assert(("--device"@)[2] != ("--test"@)[2]);
    assert(("--device"@)[2] != ("--skip-fanout"@)[2]);
    assert(("--device"@)[2] != ("--role"@)[2]);
    assert(("--device"@)[2] != ("--vk-uuid"@)[2]);
    assert(("--device"@)[2] != ("--socket"@)[2]);
    assert(("--device"@)[2] != ("--slot"@)[2]);
}

/// A `--device` flag followed by the decimal text of a number that fits a
/// `usize` sets the device index to that number (zero included) and reading
/// goes on after the value.
pub proof fn lemma_device_flag_sets_index(args: Seq<Seq<char>>, i: int, acc: ArgsModel, n: nat)
    requires
        0 <= i,
        i + 1 < args.len(),
        args[i] == "--device"@,
        args[i + 1] == decimal_digits(n),
        n <= usize::MAX,
    ensures
        parse_from(args, i, acc) == parse_from(args, i + 2, ArgsModel { device_idx: Some(n as usize), ..acc }),
{
    lemma_flags_distinct();
    lemma_parse_decimal_roundtrip(n, usize::MAX as nat);
}

/// A `--slot` flag followed by the decimal text of a number that fits a
/// `u32` sets the slot to that number and reading goes on after the value.
pub proof fn lemma_slot_flag_sets_slot(args: Seq<Seq<char>>, i: int, acc: ArgsModel, n: nat)
    requires
        0 <= i,
        i + 1 < args.len(),
        args[i] == "--slot"@,
        args[i + 1] == decimal_digits(n),
        n <= u32::MAX,
    ensures
        parse_from(args, i, acc) == parse_from(args, i + 2, ArgsModel { slot: n as u32, ..acc }),
{
    lemma_flags_distinct();
    lemma_parse_decimal_roundtrip(n, u32::MAX as nat);
}

/// A `--role` flag followed by the name of a role selects that role and
/// reading goes on after the name.
pub proof fn lemma_role_flag_sets_role(args: Seq<Seq<char>>, i: int, acc: ArgsModel, r: Role)
    requires
        0 <= i,
        i + 1 < args.len(),
        args[i] == "--role"@,
        args[i + 1] == role_name(r),
    ensures
        parse_from(args, i, acc) == parse_from(args, i + 2, ArgsModel { role: r, ..acc }),
{
    lemma_flags_distinct();
    reveal_strlit("orchestrator");
    reveal_strlit("peer");
    reveal_strlit("renderer");
    reveal_strlit("display");
    assert(role_named(role_name(r)) == Some(r));
}

/// A `--socket` flag takes the next argument, whatever it is, as the socket
/// path and reading goes on after it.
pub proof fn lemma_socket_flag_sets_socket(args: Seq<Seq<char>>, i: int, acc: ArgsModel)
    requires
        0 <= i,
        i + 1 < args.len(),
        args[i] == "--socket"@,
    ensures
        parse_from(args, i, acc) == parse_from(args, i + 2, ArgsModel { socket: Some(args[i + 1]), ..acc }),
{
    lemma_flags_distinct();
}

/// A `--vk-uuid` flag followed by the hexadecimal text of sixteen bytes
/// sets the device UUID to those bytes and reading goes on after the text.
pub proof fn lemma_vk_uuid_flag_sets_uuid(args: Seq<Seq<char>>, i: int, acc: ArgsModel, b: Seq<u8>)
    requires
        0 <= i,
        i + 1 < args.len(),
        args[i] == "--vk-uuid"@,
        args[i + 1] == hex_text(b),
        b.len() == 16,
    ensures
        parse_from(args, i, acc) == parse_from(args, i + 2, ArgsModel { vk_uuid: Some(b), ..acc }),
{
    lemma_flags_distinct();
    lemma_uuid_hex_roundtrip(b);
}

/// `--test` is skipped and `--skip-fanout` turns fan-out skipping on; both
/// take no value.
pub proof fn lemma_plain_flags(args: Seq<Seq<char>>, i: int, acc: ArgsModel)
    requires
        0 <= i < args.len(),
    ensures
        args[i] == "--test"@ ==> parse_from(args, i, acc) == parse_from(args, i + 1, acc),
        args[i] == "--skip-fanout"@ ==> parse_from(args, i, acc)
            == parse_from(args, i + 1, ArgsModel { skip_fanout: true, ..acc }),
{
    lemma_flags_distinct();
}

/// A flag that takes a value, given as the last argument, is refused as
/// missing its value, whatever was read before.
pub proof fn lemma_flag_without_value(args: Seq<Seq<char>>, acc: ArgsModel)
    requires
        1 <= args.len(),
    ensures
        args.last() == "--role"@ ==> parse_from(args, args.len() - 1, acc) == ArgOutcome::MissingValue(Flag::Role),
        args.last() == "--vk-uuid"@ ==> parse_from(args, args.len() - 1, acc) == ArgOutcome::MissingValue(Flag::VkUuid),
        args.last() == "--socket"@ ==> parse_from(args, args.len() - 1, acc) == ArgOutcome::MissingValue(Flag::Socket),
        args.last() == "--slot"@ ==> parse_from(args, args.len() - 1, acc) == ArgOutcome::MissingValue(Flag::Slot),
        args.last() == "--device"@ ==> parse_from(args, args.len() - 1, acc) == ArgOutcome::MissingValue(Flag::Device),
{
    lemma_flags_distinct();
}

/// A command line read from position `i` whose last two arguments are
/// `--device` and the decimal text of a number that fits a `usize`, when it
/// is read without error, ends with that number as the device index: the
/// last device flag wins, and the final number can be read no other way.
pub proof fn lemma_last_device_flag_wins(args: Seq<Seq<char>>, i: int, acc: ArgsModel, n: nat)
    requires
        2 <= args.len(),
        0 <= i < args.len(),
        args[args.len() - 2] == "--device"@,
        args[args.len() - 1] == decimal_digits(n),
        n <= usize::MAX,
    ensures
        parse_from(args, i, acc) matches ArgOutcome::Parsed(m) ==> m.device_idx == Some(n as usize),
    decreases args.len() - i,
{
    let last = args.len() - 1;
    lemma_decimal_is_no_flag(n);
    if i == last {
    } else if i == last - 1 {
        lemma_device_flag_sets_index(args, i, acc, n);
    } else {
        let a = args[i];
        let v = args[i + 1];
        if a == "--test"@ {
            lemma_last_device_flag_wins(args, i + 1, acc, n);
        } else if a == "--skip-fanout"@ {
            lemma_last_device_flag_wins(args, i + 1, ArgsModel { skip_fanout: true, ..acc }, n);
        } else if a == "--role"@ {
            match role_named(v) {
                Some(r) => lemma_last_device_flag_wins(args, i + 2, ArgsModel { role: r, ..acc }, n),
                None => {},
            }
        } else if a == "--vk-uuid"@ {
            match uuid_outcome(v) {
                UuidOutcome::Value(b) => lemma_last_device_flag_wins(args, i + 2, ArgsModel { vk_uuid: Some(b), ..acc }, n),
                _ => {},
            }
        } else if a == "--socket"@ {
            lemma_last_device_flag_wins(args, i + 2, ArgsModel { socket: Some(v), ..acc }, n);
        } else if a == "--slot"@ {
            match parse_unsigned(v, u32::MAX as nat) {
                Ok(x) => lemma_last_device_flag_wins(args, i + 2, ArgsModel { slot: x as u32, ..acc }, n),
                Err(_) => {},
            }
        } else if a == "--device"@ {
            match parse_unsigned(v, usize::MAX as nat) {
                Ok(x) => lemma_last_device_flag_wins(args, i + 2, ArgsModel { device_idx: Some(x as usize), ..acc }, n),
                Err(_) => {},
            }
        }
    }
}

/// A whole command line that ends with `--device N`, for any `N` that fits a
/// `usize` (zero included), selects device `N` whenever it is accepted.
pub proof fn lemma_command_line_device(argv: Seq<String>, n: nat)
    requires
        3 <= argv.len(),
        argv[argv.len() - 2]@ == "--device"@,
        argv[argv.len() - 1]@ == decimal_digits(n),
        n <= usize::MAX,
    ensures
        parse_args(argv) matches ArgOutcome::Parsed(m) ==> m.device_idx == Some(n as usize),
{
    let args = arg_texts(argv);
    assert(args[args.len() - 2] == argv[argv.len() - 2]@);
    assert(args[args.len() - 1] == argv[argv.len() - 1]@);
    lemma_last_device_flag_wins(args, 1, default_args(), n);
}

/// The command line `PROGRAM --device N` is accepted for every `N` that fits
/// a `usize`, zero included, and selects device `N` with every other setting
/// at its default.
pub proof fn lemma_device_only_command_line(program: Seq<char>, n: nat)
    requires
        n <= usize::MAX,
    ensures
        parse_from(seq![program, "--device"@, decimal_digits(n)], 1, default_args())
            == ArgOutcome::Parsed(ArgsModel { device_idx: Some(n as usize), ..default_args() }),
{
    let args = seq![program, "--device"@, decimal_digits(n)];
    lemma_device_flag_sets_index(args, 1, default_args(), n);
}

/// Whether reading the command line `argv` panics: a `--vk-uuid` value that
/// is read before any error makes string slicing cut a multi-byte
/// character. `TestArgs::parse` and `run` accept exactly the command lines
/// for which this is false.
pub fn args_parse_panics(argv: &[String]) -> (r: bool)
    ensures
        r == (parse_args(argv@) is Panics),
{
    let ghost args = arg_texts(argv@);
    let n = argv.len();
    let mut i: usize = 1;
    while i < n
        invariant
            n == argv@.len(),
            args == arg_texts(argv@),
            args.len() == n,
            i >= 1,
            (parse_args(argv@) is Panics) == (parse_from(args, i as int, default_args()) is Panics),
        decreases n - i,
    {
        let a: &str = argv[i].as_str();
        assert(args[i as int] == a@);
        let ghost d = default_args();
        if text_equals(a, "--test") {
            i = i + 1;
        } else if text_equals(a, "--skip-fanout") {
            proof {
                lemma_panics_independent_of_settings(args, i + 1, ArgsModel { skip_fanout: true, ..d }, d);
            }
            i = i + 1;
        } else if text_equals(a, "--role") {
            if i + 1 >= n {
                return false;
            }
            let v: &str = argv[i + 1].as_str();
            assert(args[i + 1] == v@);
            if text_equals(v, "orchestrator") || text_equals(v, "peer") || text_equals(v, "renderer")
                || text_equals(v, "display") {
                proof {
                    let r = role_named(v@)->0;
                    lemma_panics_independent_of_settings(args, i + 2, ArgsModel { role: r, ..d }, d);
                }
                i = i + 2;
            } else {
                return false;
            }
        } else if text_equals(a, "--vk-uuid") {
            if i + 1 >= n {
                return false;
            }
            let v: &str = argv[i + 1].as_str();
            assert(args[i + 1] == v@);
            if uuid_hex_panics(v) {
                return true;
            }
            match parse_uuid_hex(v) {
                Ok(b) => {
                    proof {
                        lemma_panics_independent_of_settings(args, i + 2, ArgsModel { vk_uuid: Some(b@), ..d }, d);
                    }
                },
                Err(_) => {
                    return false;
                },
            }
            i = i + 2;
        } else if text_equals(a, "--socket") {
            if i + 1 >= n {
                return false;
            }
            let v: &str = argv[i + 1].as_str();
            assert(args[i + 1] == v@);
            proof {
                lemma_panics_independent_of_settings(args, i + 2, ArgsModel { socket: Some(v@), ..d }, d);
            }
            i = i + 2;
        } else if text_equals(a, "--slot") || text_equals(a, "--device") {
            if i + 1 >= n {
                return false;
            }
            let v: &str = argv[i + 1].as_str();
            assert(args[i + 1] == v@);
            let is_slot = text_equals(a, "--slot");
            let max: u64 = if is_slot { u32::MAX as u64 } else { usize::MAX as u64 };
            match parse_unsigned_text(v, max) {
                Ok(x) => {
                    proof {
                        if is_slot {
                            lemma_panics_independent_of_settings(args, i + 2, ArgsModel { slot: x as u32, ..d }, d);
                        } else {
                            lemma_panics_independent_of_settings(args, i + 2, ArgsModel { device_idx: Some(x as usize), ..d }, d);
                        }
                    }
                },
                Err(_) => {
                    return false;
                },
            }
            i = i + 2;
        } else {
            return false;
        }
    }
    false
}

/// Which entry point a self-test process runs, with its settings.
pub enum SelfTestRun {
    Orchestrator(TestArgs),
    Peer(TestArgs),
    Renderer(TestArgs),
    Display(TestArgs),
}

impl SelfTestRun {
    /// The settings the entry point runs with.
    pub open spec fn args(&self) -> TestArgs {
        match self {
            SelfTestRun::Orchestrator(a) => *a,
            SelfTestRun::Peer(a) => *a,
            SelfTestRun::Renderer(a) => *a,
            SelfTestRun::Display(a) => *a,
        }
    }

    /// The role whose entry point this is.
    pub open spec fn entry_role(&self) -> Role {
        match self {
            SelfTestRun::Orchestrator(_) => Role::Orchestrator,
            SelfTestRun::Peer(_) => Role::Peer,
            SelfTestRun::Renderer(_) => Role::Renderer,
            SelfTestRun::Display(_) => Role::Display,
        }
    }
}

/// Reads a self-test command line and selects the entry point of the role
/// it names: the orchestrator unless `--role` says otherwise.
pub fn run(argv: Vec<String>) -> (r: Result<SelfTestRun, ArgError>)
    requires
        !(parse_args(argv@) is Panics),
    ensures
        match r {
            Ok(run) => {
                &&& parse_args(argv@) == ArgOutcome::Parsed(run.args().model())
                &&& run.entry_role() == run.args().role
            },
            Err(e) => parse_args(argv@) == e.outcome(),
        },
{
    let args = TestArgs::parse(argv.as_slice())?;
    match args.role {
        Role::Orchestrator => Ok(SelfTestRun::Orchestrator(args)),
        Role::Peer => Ok(SelfTestRun::Peer(args)),
        Role::Renderer => Ok(SelfTestRun::Renderer(args)),
        Role::Display => Ok(SelfTestRun::Display(args)),
    }
}

} // verus!
