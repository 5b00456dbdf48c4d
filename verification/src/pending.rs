//! Dry runs that wait to be confirmed.

use vstd::prelude::*;

use crate::json::Json;
use crate::keyed::Keyed;
use crate::text::string_of;

verus! {

/// How long a dry run waits, in milliseconds: half an hour.
pub const TTL: u64 = 1800000;

/// A dry run that waits.
pub struct PendingApply {
    pub tool_name: String,
    /// The arguments to run again, without the dry-run flag.
    pub args: Json,
    /// When it was stored, in milliseconds.
    pub created_at: u64,
}

/// The dry runs that wait.
pub struct PendingRegistry {
    pub table: Keyed<PendingApply>,
    /// How many have been stored.
    pub seq: u64,
}

/// A digit of hexadecimal.
pub open spec fn hex_digit(d: int) -> char {
    if d < 10 {
        (48 + d) as char
    } else {
        (87 + d) as char
    }
}

/// A number in hexadecimal.
pub open spec fn hex(n: nat) -> Seq<char>
    decreases n,
{
    if n < 16 {
        seq![hex_digit(n as int)]
    } else {
        hex(n / 16).push(hex_digit((n % 16) as int))
    }
}

fn hex_chars(n: u64) -> (out: Vec<char>)
    ensures
        out@ == hex(n as nat),
    decreases n,
{
    let d: u8 = (n % 16) as u8;
    let c: char = if d < 10 {
        (48u8 + d) as char
    } else {
        (87u8 + d) as char
    };
    if n < 16 {
        let mut out: Vec<char> = Vec::new();
        out.push(c);
        proof {
            assert(out@ =~= hex(n as nat));
        }
        out
    } else {
        let mut out: Vec<char> = hex_chars(n / 16);
        out.push(c);
        out
    }
}

/// The name of a dry run, from the time in nanoseconds and its number.
pub open spec fn pending_id(nanos: u64, seq: u64) -> Seq<char> {
    "p"@ + hex(nanos as nat) + hex(seq as nat)
}

impl PendingRegistry {
    /// Nothing waits.
    pub fn new() -> (r: Self)
        ensures
            r.table@ == Map::<Seq<char>, PendingApply>::empty(),
            r.seq == 0,
    {
        PendingRegistry { table: Keyed::new(), seq: 0 }
    }
}

/// Stores a dry run; gives its name.
pub fn store(
    reg: &mut PendingRegistry,
    tool_name: &str,
    args: Json,
    nanos: u64,
    now: u64,
) -> (id: String)
    ensures
        id@ == pending_id(nanos, old(reg).seq),
        final(reg).seq == old(reg).seq.wrapping_add(1),
        final(reg).table@.dom() == old(reg).table@.dom().insert(id@),
        final(reg).table@[id@].tool_name@ == tool_name@,
        final(reg).table@[id@].args == args,
        final(reg).table@[id@].created_at == now,
        forall|k: Seq<char>|
            k != id@ && #[trigger] old(reg).table@.contains_key(k) ==> final(reg).table@[k] == old(
                reg,
            ).table@[k],
{
    let mut id: String = "p".to_owned();
    id.append(string_of(hex_chars(nanos).as_slice()).as_str());
    id.append(string_of(hex_chars(reg.seq).as_slice()).as_str());
    reg.seq = reg.seq.wrapping_add(1);
    reg.table.insert(
        id.clone(),
        PendingApply { tool_name: tool_name.to_owned(), args, created_at: now },
    );
    proof {
        assert(reg.table@.dom() =~= old(reg).table@.dom().insert(id@));
    }
    id
}

/// Whether a dry run is too old.
pub open spec fn expired(p: PendingApply, now: u64) -> bool {
    now - p.created_at > TTL
}

/// Takes a dry run out, once; nothing when there is none of that name or it is too
/// old.
pub fn take(reg: &mut PendingRegistry, id: &str, now: u64) -> (r: Option<PendingApply>)
    ensures
        final(reg).table@ == old(reg).table@.remove(id@),
        final(reg).seq == old(reg).seq,
        match r {
            Some(p) => old(reg).table@.contains_key(id@) && old(reg).table@[id@] == p && !expired(
                p,
                now,
            ),
            None => !old(reg).table@.contains_key(id@) || expired(old(reg).table@[id@], now),
        },
{
    match reg.table.remove(id) {
        Some(p) => {
            if now >= p.created_at && now - p.created_at > TTL {
                None
            } else {
                Some(p)
            }
        },
        None => None,
    }
}

} // verus!
