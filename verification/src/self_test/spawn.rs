//! What the orchestrator hands a child process it spawns: the socket file
//! name and the child's command line.

use vstd::prelude::*;

use crate::self_test::hex::{format_uuid_hex, hex_text, lemma_uuid_hex_roundtrip};
use crate::self_test::{default_args, parse_from, role_arg, role_name, role_named, ArgOutcome, ArgsModel, Role};
use crate::text::{append_decimal, decimal_digits, lemma_parse_decimal_roundtrip, parse_unsigned, IntErrorKind};

verus! {

/// The file name of a self-test socket: `test-<pid>-<tag>.sock`.
pub open spec fn socket_file_text(pid: u32, tag: Seq<char>) -> Seq<char> {
    "test-"@ + decimal_digits(pid as nat) + "-"@ + tag + ".sock"@
}

/// The file name of the self-test socket of process `pid` for `tag`.
pub fn socket_file_name(pid: u32, tag: &str) -> (r: String)
    ensures
        r@ == socket_file_text(pid, tag@),
{
    let mut s = String::new();
    s.append("test-");
    append_decimal(&mut s, pid as u64);
    s.append("-");
    s.append(tag);
    s.append(".sock");
    s
}

/// What a spawned child is told.
#[derive(Debug, Clone)]
pub struct ChildSpec {
    pub role: Role,
    pub socket: String,
    pub vk_uuid: [u8; 16],
    pub slot: u32,
}

/// The command line (after the program name) that a child with `spec` is
/// started with.
pub open spec fn child_arg_texts(role: Role, socket: Seq<char>, vk_uuid: Seq<u8>, slot: u32) -> Seq<Seq<char>> {
    seq![
        "--test"@,
        "--role"@,
        role_name(role),
        "--socket"@,
        socket,
        "--vk-uuid"@,
        hex_text(vk_uuid),
        "--slot"@,
        decimal_digits(slot as nat),
    ]
}

/// The command-line arguments a child with `spec` is started with.
pub fn child_args(spec: &ChildSpec) -> (r: Vec<String>)
    ensures
        r@.map_values(|s: String| s@) == child_arg_texts(spec.role, spec.socket@, spec.vk_uuid@, spec.slot),
{
    let mut v: Vec<String> = Vec::new();
    v.push(String::from_str("--test"));
    v.push(String::from_str("--role"));
    v.push(String::from_str(role_arg(spec.role)));
    v.push(String::from_str("--socket"));
    v.push(spec.socket.clone());
    v.push(String::from_str("--vk-uuid"));
    v.push(format_uuid_hex(&spec.vk_uuid));
    v.push(String::from_str("--slot"));
    let mut slot = String::new();
    append_decimal(&mut slot, spec.slot as u64);
    v.push(slot);
    proof {
        assert(slot@ =~= decimal_digits(spec.slot as nat));
    }
    assert(v@.map_values(|s: String| s@)[2] == role_name(spec.role));
    assert(v@.map_values(|s: String| s@)[4] == spec.socket@);
    assert(v@.map_values(|s: String| s@)[6] == hex_text(spec.vk_uuid@));
    assert(v@.map_values(|s: String| s@)[8] == decimal_digits(spec.slot as nat));
    assert(v@.map_values(|s: String| s@) =~= child_arg_texts(spec.role, spec.socket@, spec.vk_uuid@, spec.slot));
    v
}

/// A child reads back exactly what it was spawned with: parsing its command
/// line gives the spec's role, socket, device UUID and slot, with no device
/// index and fan-out enabled.
pub proof fn lemma_child_args_roundtrip(program: Seq<char>, role: Role, socket: Seq<char>, vk_uuid: Seq<u8>, slot: u32)
    requires
        vk_uuid.len() == 16,
    ensures
        parse_from(seq![program] + child_arg_texts(role, socket, vk_uuid, slot), 1, default_args())
            == ArgOutcome::Parsed(ArgsModel {
                role: role,
                vk_uuid: Some(vk_uuid),
                socket: Some(socket),
                slot: slot,
                device_idx: None,
                skip_fanout: false,
            }),
{
    reveal_strlit("--test");
    reveal_strlit("--skip-fanout");
    reveal_strlit("--role");
    reveal_strlit("--vk-uuid");
    reveal_strlit("--socket");
    reveal_strlit("--slot");
    reveal_strlit("--device");
    reveal_strlit("orchestrator");
    reveal_strlit("peer");
    reveal_strlit("renderer");
    reveal_strlit("display");
    let args = seq![program] + child_arg_texts(role, socket, vk_uuid, slot);
    assert(args.len() == 10);
    assert(args[1] == "--test"@);
    assert(args[2] == "--role"@);
    assert(args[3] == role_name(role));
    assert(args[4] == "--socket"@);
    assert(args[5] == socket);
    assert(args[6] == "--vk-uuid"@);
    assert(args[7] == hex_text(vk_uuid));
    assert(args[8] == "--slot"@);
    assert(args[9] == decimal_digits(slot as nat));
    assert(role_named(role_name(role)) == Some(role));
    lemma_uuid_hex_roundtrip(vk_uuid);
    lemma_parse_decimal_roundtrip(slot as nat, u32::MAX as nat);
    let a0 = default_args();
    let a1 = ArgsModel { role: role, ..a0 };
    let a2 = ArgsModel { socket: Some(socket), ..a1 };
    let a3 = ArgsModel { vk_uuid: Some(vk_uuid), ..a2 };
    let a4 = ArgsModel { slot: slot, ..a3 };
    assert(parse_from(args, 10, a4) == ArgOutcome::Parsed(a4));
    assert(("--slot"@)[2] != ("--test"@)[2]);
    assert(("--slot"@)[3] != ("--skip-fanout"@)[3]);
    assert(("--slot"@)[2] != ("--role"@)[2]);
    assert(("--slot"@)[2] != ("--vk-uuid"@)[2]);
    assert(("--slot"@)[3] != ("--socket"@)[3]);
    assert("--slot"@ != "--test"@);
    assert("--slot"@ != "--skip-fanout"@);
    assert("--slot"@ != "--role"@);
    assert("--slot"@ != "--vk-uuid"@);
    assert("--slot"@ != "--socket"@);
    assert(args[8] == "--slot"@);
    assert(parse_unsigned(args[9], u32::MAX as nat) == Ok::<nat, IntErrorKind>(slot as nat));
    assert(parse_from(args, 8, a3) == parse_from(args, 10, a4));
    assert(parse_from(args, 6, a2) == parse_from(args, 8, a3));
    assert(parse_from(args, 4, a1) == parse_from(args, 6, a2));
    assert(parse_from(args, 2, a0) == parse_from(args, 4, a1));
    assert(parse_from(args, 1, a0) == parse_from(args, 2, a0));
}

} // verus!
