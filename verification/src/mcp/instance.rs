//! One instance per project root: how an instance is recorded, and when an older
//! one has to make way.

use crate::json;
use crate::json::{Json, JsonView};
use crate::text;
use vstd::prelude::*;
use vstd::utf8::encode_utf8;

verus! {

/// The hash of a run of bytes before the first one.
pub const HASH_BASIS: u64 = 0xcbf2_9ce4_8422_2325;

/// What the hash is multiplied by for every byte.
pub const HASH_PRIME: u64 = 0x1000_0000_01b3;

/// The hash of a run of bytes: each is mixed in and the result multiplied, with
/// the overflow dropped.
pub open spec fn hash_of(bytes: Seq<u8>) -> u64
    decreases bytes.len(),
{
    if bytes.len() == 0 {
        HASH_BASIS
    } else {
        (hash_of(bytes.drop_last()) ^ (bytes.last() as u64)).wrapping_mul(HASH_PRIME)
    }
}

/// The character of a hexadecimal digit.
pub open spec fn hex_char(d: int) -> char {
    if d < 10 {
        text::digit_char(d)
    } else {
        ('a' as int + (d - 10)) as char
    }
}

/// The lowest digits of a number in hexadecimal notation: so many.
pub open spec fn hex_digits(n: nat, width: nat) -> Seq<char>
    decreases width,
{
    if width == 0 {
        Seq::empty()
    } else {
        hex_digits(n / 16, (width - 1) as nat).push(hex_char((n % 16) as int))
    }
}

/// The name of the file that records the instance of a root.
pub open spec fn record_name(root: Seq<char>) -> Seq<char> {
    "render-component-mcp-"@ + hex_digits(hash_of(encode_utf8(root)) as nat, 16) + ".json"@
}

fn hash(bytes: &[u8]) -> (r: u64)
    ensures
        r == hash_of(bytes@),
{
    let mut h: u64 = HASH_BASIS;
    let mut i: usize = 0;
    assert(bytes@.take(0) =~= Seq::<u8>::empty());
    while i < bytes.len()
        invariant
            i <= bytes.len(),
            h == hash_of(bytes@.take(i as int)),
        decreases bytes.len() - i,
    {
        proof {
            assert(bytes@.take(i + 1).drop_last() =~= bytes@.take(i as int));
            assert(bytes@.take(i + 1).last() == bytes@[i as int]);
        }
        h = (h ^ (bytes[i] as u64)).wrapping_mul(HASH_PRIME);
        i = i + 1;
    }
    assert(bytes@.take(bytes@.len() as int) =~= bytes@);
    h
}

fn hex(d: u64) -> (r: char)
    requires
        d < 16,
    ensures
        r == hex_char(d as int),
{
    if d < 10 {
        text::digit_of(d)
    } else {
        (87 + d as u8) as char
    }
}

fn push_hex(out: &mut Vec<char>, n: u64, width: usize)
    ensures
        final(out)@ == old(out)@ + hex_digits(n as nat, width as nat),
    decreases width,
{
    let ghost before = out@;
    if width > 0 {
        push_hex(out, n / 16, width - 1);
        out.push(hex(n % 16));
    }
    assert(out@ =~= before + hex_digits(n as nat, width as nat));
}

/// The name of the file that records the instance of a root, so that instances
/// for different roots do not meet.
pub fn lockfile_name(root: &str) -> (r: String)
    ensures
        r@ == record_name(root@),
{
    let h: u64 = hash(root.as_bytes());
    let mut digits: Vec<char> = Vec::new();
    push_hex(&mut digits, h, 16);
    assert(digits@ =~= hex_digits(h as nat, 16));
    let digits: String = text::text_of(digits.as_slice());
    text::cat3("render-component-mcp-", digits.as_str(), ".json")
}

/// An instance on record: its process, and the port of its control server.
#[derive(Debug, Clone, Copy, PartialEq, Eq, Structural)]
pub struct Stale {
    pub pid: u32,
    pub cli_port: Option<u16>,
}

/// The instance that a record tells of, where it is another than the process
/// `own`.
pub open spec fn stale_in(record: JsonView, own: nat) -> Option<Stale> {
    match json::as_natural(json::field(record, "pid"@)) {
        Some(pid) => if pid != own {
            Some(
                Stale {
                    pid: (pid % 0x1_0000_0000) as u32,
                    cli_port: match json::as_natural(json::field(record, "cli_port"@)) {
                        Some(port) => Some((port % 0x1_0000) as u16),
                        None => None,
                    },
                },
            )
        } else {
            None
        },
        None => None,
    }
}

/// The instance that a record tells of, where it is another than the process
/// `own`.
pub fn stale_record(record: &Json, own: u32) -> (r: Option<Stale>)
    ensures
        r == stale_in(record@, own as nat),
{
    match record.natural_at("pid") {
        Some(pid) => if pid != own as u64 {
            let cli_port: Option<u16> = match record.natural_at("cli_port") {
                Some(port) => Some((port % 0x1_0000) as u16),
                None => None,
            };
            Some(Stale { pid: (pid % 0x1_0000_0000) as u32, cli_port })
        } else {
            None
        },
        None => None,
    }
}

/// The instance that the text of a record tells of, where the text is one.
pub fn stale_instance(raw: &str, own: u32) -> (r: Option<Stale>)
    ensures
        r == (match json::json_read(raw@) {
            Ok(record) => stale_in(record, own as nat),
            Err(_) => None,
        }),
{
    match json::read(raw) {
        Ok(record) => stale_record(&record, own),
        Err(_) => None,
    }
}

/// Whether a process is an instance of this program, by its command line, whose
/// words end in NUL.
pub fn is_instance(cmdline: &str) -> (r: bool)
    ensures
        r == text::has(text::replaced(cmdline@, '\0', ' '), "render-component"@),
{
    let chars: Vec<char> = text::chars_of(cmdline);
    let words: Vec<char> = text::replace(chars.as_slice(), '\0', ' ');
    text::contains(words.as_slice(), "render-component")
}

/// The record of an instance.
pub open spec fn record_of(pid: nat, cli_port: Option<u16>) -> JsonView {
    JsonView::Object(
        seq![
            (
                "cli_port"@,
                match cli_port {
                    Some(port) => json::natural_value(port as nat),
                    None => JsonView::Null,
                },
            ),
            ("pid"@, json::natural_value(pid)),
        ],
    )
}

/// The record of an instance, as a value.
pub fn record_json(pid: u32, cli_port: Option<u16>) -> (r: Json)
    ensures
        r@ == record_of(pid as nat, cli_port),
{
    let port: Json = match cli_port {
        Some(p) => json::number_value(p as u64),
        None => Json::Null,
    };
    let mut o: Vec<(String, Json)> = json::no_members();
    json::append(&mut o, "cli_port", port);
    json::append(&mut o, "pid", json::number_value(pid as u64));
    assert(json::members(o@) =~= record_of(pid as nat, cli_port)->Object_0);
    json::object(o)
}

/// The record of an instance, as the text of its file, which reads as that
/// record.
pub fn record_text(pid: u32, cli_port: Option<u16>) -> (r: String)
    ensures
        r@ == json::json_compact(record_of(pid as nat, cli_port)),
        json::json_read(r@) matches Ok(record) && record == record_of(pid as nat, cli_port),
{
    proof {
        records_can_be_read(pid, cli_port);
    }
    json::compact(&record_json(pid, cli_port))
}

proof fn records_can_be_read(pid: u32, cli_port: Option<u16>)
    ensures
        json::reads_back(record_of(pid as nat, cli_port), json::MAX_NESTING as nat),
{
    reveal_strlit("cli_port");
    reveal_strlit("pid");
    text::decimal_is_read_back(pid as nat);
    if let Some(port) = cli_port {
        text::decimal_is_read_back(port as nat);
    }
    let o = record_of(pid as nat, cli_port)->Object_0;
    assert(text::text_less(o[0].0, o[1].0));
    assert(json::keys_ascend(o));
    json::short_keys_are_plain(o);
    assert(json::reads_back(o[0].1, 99) && json::reads_back(o[1].1, 99));
}

/// An instance is found on record under its process and its port, by every other
/// process and not by itself.
pub proof fn records_are_read_back(pid: u32, cli_port: Option<u16>, own: u32)
    ensures
        stale_in(record_of(pid as nat, cli_port), own as nat) == (if pid == own {
            None
        } else {
            Some(Stale { pid, cli_port })
        }),
{
    reveal_strlit("pid");
    reveal_strlit("cli_port");
    let o = record_of(pid as nat, cli_port)->Object_0;
    assert(o[0].0.len() != o[1].0.len());
    json::member_from_found(o, "cli_port"@, 0, 0);
    json::member_from_found(o, "pid"@, 0, 1);
    text::decimal_is_read_back(pid as nat);
    if let Some(port) = cli_port {
        text::decimal_is_read_back(port as nat);
    }
}

/// Roots with different hashes are recorded in different files.
pub proof fn records_are_told_apart(a: Seq<char>, b: Seq<char>)
    requires
        hash_of(encode_utf8(a)) != hash_of(encode_utf8(b)),
    ensures
        record_name(a) != record_name(b),
{
    let x = hash_of(encode_utf8(a));
    let y = hash_of(encode_utf8(b));
    if record_name(a) == record_name(b) {
        let front = "render-component-mcp-"@;
        hex_digits_are_so_many(x as nat, 16);
        hex_digits_are_so_many(y as nat, 16);
        let p = record_name(a).subrange(front.len() as int, front.len() + 16int);
        let q = record_name(b).subrange(front.len() as int, front.len() + 16int);
        assert(p =~= hex_digits(x as nat, 16));
        assert(q =~= hex_digits(y as nat, 16));
        nothing_is_above(x);
        nothing_is_above(y);
        digits_tell_numbers_apart(x as nat, y as nat, 16);
    }
}

/// What is left of a number without its lowest hexadecimal digits: so many.
spec fn above(n: nat, width: nat) -> nat
    decreases width,
{
    if width == 0 {
        n
    } else {
        above(n / 16, (width - 1) as nat)
    }
}

proof fn hex_digits_are_so_many(n: nat, width: nat)
    ensures
        hex_digits(n, width).len() == width,
    decreases width,
{
    if width > 0 {
        hex_digits_are_so_many(n / 16, (width - 1) as nat);
    }
}

proof fn nothing_is_above(n: u64)
    ensures
        above(n as nat, 16) == 0,
{
    reveal_with_fuel(above, 17);
}

proof fn digits_tell_numbers_apart(x: nat, y: nat, width: nat)
    requires
        hex_digits(x, width) == hex_digits(y, width),
        above(x, width) == above(y, width),
    ensures
        x == y,
    decreases width,
{
    if width > 0 {
        let p = hex_digits(x / 16, (width - 1) as nat);
        let q = hex_digits(y / 16, (width - 1) as nat);
        hex_digits_are_so_many(x / 16, (width - 1) as nat);
        hex_digits_are_so_many(y / 16, (width - 1) as nat);
        assert(hex_digits(x, width).drop_last() =~= p);
        assert(hex_digits(y, width).drop_last() =~= q);
        assert(hex_digits(x, width).last() == hex_char((x % 16) as int));
        assert(hex_digits(y, width).last() == hex_char((y % 16) as int));
        digits_tell_numbers_apart(x / 16, y / 16, (width - 1) as nat);
    }
}

} // verus!
