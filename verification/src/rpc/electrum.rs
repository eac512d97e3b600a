//! Electrum servers managed by RPC: which are listed, how an update sets
//! their deletion time, and how pings are recorded.

use vstd::prelude::*;

verus! {

/// An Electrum server record. Times are nanoseconds since the Unix epoch.
#[derive(Debug)]
pub struct ElectrumServer {
    pub id: i64,
    pub name: String,
    pub url: String,
    pub priority: i64,
    pub spki_pin: String,
    pub created_at: i128,
    pub updated_at: i128,
    pub deleted_at: Option<i128>,
}

/// The server is listed: deleted servers only when asked for.
pub open spec fn server_listed(include_deleted: Option<bool>, s: ElectrumServer) -> bool {
    (match include_deleted {
        Some(b) => b,
        None => false,
    }) || s.deleted_at is None
}

pub open spec fn listed_test(include_deleted: Option<bool>) -> spec_fn(ElectrumServer) -> bool {
    |s: ElectrumServer| server_listed(include_deleted, s)
}

/// The listed servers, in order.
pub fn listed_servers(servers: Vec<ElectrumServer>, include_deleted: Option<bool>) -> (r: Vec<
    ElectrumServer,
>)
    ensures
        r@ == servers@.filter(listed_test(include_deleted)),
{
    let with_deleted = match include_deleted {
        Some(b) => b,
        None => false,
    };
    let ghost pred = listed_test(include_deleted);
    let ghost orig = servers@;
    let mut servers = servers;
    let mut rev: Vec<ElectrumServer> = Vec::new();
    while servers.len() > 0
        invariant
            servers@.len() <= orig.len(),
            servers@ == orig.subrange(0, servers@.len() as int),
            pred == listed_test(include_deleted),
            with_deleted == match include_deleted {
                Some(b) => b,
                None => false,
            },
            orig.filter(pred) == servers@.filter(pred) + rev@.reverse(),
        decreases servers@.len(),
    {
        let ghost before = servers@;
        let ghost rev_before = rev@;
        let s = servers.pop().unwrap();
        assert(servers@ =~= orig.subrange(0, servers@.len() as int));
        proof {
            reveal_with_fuel(Seq::filter, 1);
            assert(before.drop_last() =~= servers@);
            assert(before.last() == s);
        }
        if with_deleted || s.deleted_at.is_none() {
            rev.push(s);
            proof {
                assert(rev@.reverse() =~= seq![s] + rev_before.reverse());
                assert(before.filter(pred) == servers@.filter(pred).push(s));
                assert(servers@.filter(pred).push(s) + rev_before.reverse() =~= servers@.filter(pred)
                    + rev@.reverse());
            }
        }
    }
    assert(servers@.filter(pred) =~= Seq::<ElectrumServer>::empty()) by {
        reveal_with_fuel(Seq::filter, 1);
    }
    let mut out: Vec<ElectrumServer> = Vec::new();
    let ghost full = rev@.reverse();
    assert(orig.filter(pred) =~= full);
    while rev.len() > 0
        invariant
            full == out@ + rev@.reverse(),
        decreases rev@.len(),
    {
        let ghost before = rev@;
        let x = rev.pop().unwrap();
        out.push(x);
        proof {
            assert(before =~= rev@.push(x));
            assert(before.reverse() =~= seq![x] + rev@.reverse());
            assert(full =~= out@ + rev@.reverse());
        }
    }
    assert(out@ =~= full);
    out
}

/// A deletion time after an update: an absent field leaves it, `null`
/// clears it and a time sets it.
pub open spec fn updated_deleted_at(current: Option<i128>, update: Option<Option<i128>>) -> Option<
    i128,
> {
    match update {
        None => current,
        Some(v) => v,
    }
}

/// Applies the deletion-time field of an update.
pub fn apply_deleted_at(current: Option<i128>, update: Option<Option<i128>>) -> (r: Option<i128>)
    ensures
        r == updated_deleted_at(current, update),
{
    match update {
        None => current,
        Some(v) => v,
    }
}

/// Whether an update writes the deletion time at all.
pub fn writes_deleted_at(update: Option<Option<i128>>) -> (r: bool)
    ensures
        r == update is Some,
{
    update.is_some()
}

/// The defaults of a new server: priority 0 and no pinned key.
pub fn new_server_defaults(priority: Option<i64>, spki_pin: Option<String>) -> (r: (i64, String))
    ensures
        r.0 == match priority {
            Some(p) => p,
            None => 0,
        },
        r.1@ == match spki_pin {
            Some(s) => s@,
            None => Seq::<char>::empty(),
        },
{
    (
        match priority {
            Some(p) => p,
            None => 0,
        },
        match spki_pin {
            Some(s) => s,
            None => String::new(),
        },
    )
}

/// The ping result of a server.
#[derive(Debug)]
pub struct PingRes {
    pub id: i64,
    pub name: String,
    pub url: String,
    pub priority: i64,
    pub ok: bool,
    pub latency_ms: Option<u64>,
    pub error: Option<String>,
}

/// A server not yet pinged.
pub fn unpinged(s: ElectrumServer) -> (r: PingRes)
    ensures
        r.id == s.id,
        r.name == s.name,
        r.url == s.url,
        r.priority == s.priority,
        !r.ok,
        r.latency_ms is None,
        r.error is None,
{
    PingRes { id: s.id, name: s.name, url: s.url, priority: s.priority, ok: false, latency_ms: None, error: None }
}

/// The first result for server `id`.
pub open spec fn first_with_id(results: Seq<PingRes>, id: i64) -> Option<int> {
    if exists|k: int| 0 <= k < results.len() && #[trigger] results[k].id == id {
        Some(choose|k: int| 0 <= k < results.len() && #[trigger] results[k].id == id && forall|j: int| 0 <= j < k ==> results[j].id != id)
    } else {
        None
    }
}

/// Records the outcome of pinging server `id` in the first result for it:
/// a success marks it up with its latency, a failure marks it down with the
/// error's text. Results of servers not listed are dropped.
pub fn record_ping(results: &mut Vec<PingRes>, id: i64, outcome: Result<u64, String>)
    ensures
        final(results)@.len() == old(results)@.len(),
        forall|k: int|
            0 <= k < old(results)@.len() ==> (#[trigger] final(results)@[k]).id == old(results)@[k].id
                && final(results)@[k].name == old(results)@[k].name && final(results)@[k].url
                == old(results)@[k].url && final(results)@[k].priority == old(results)@[k].priority,
        forall|k: int|
            0 <= k < old(results)@.len() ==> if (forall|j: int| 0 <= j < k ==> old(results)@[j].id != id)
                && old(results)@[k].id == id {
                match outcome {
                    Ok(ms) => final(results)@[k].ok && final(results)@[k].latency_ms == Some(ms)
                        && final(results)@[k].error == old(results)@[k].error,
                    Err(e) => !final(results)@[k].ok && final(results)@[k].error == Some(e)
                        && final(results)@[k].latency_ms == old(results)@[k].latency_ms,
                }
            } else {
                final(results)@[k] == old(results)@[k]
            },
{
    let mut i: usize = 0;
    while i < results.len()
        invariant
            results@ == old(results)@,
            i <= results@.len(),
            forall|j: int| 0 <= j < i ==> results@[j].id != id,
        decreases results@.len() - i,
    {
        if results[i].id == id {
            match outcome {
                Ok(ms) => {
                    results[i].ok = true;
                    results[i].latency_ms = Some(ms);
                },
                Err(e) => {
                    results[i].ok = false;
                    results[i].error = Some(e);
                },
            }
            return;
        }
        i = i + 1;
    }
}

} // verus!
