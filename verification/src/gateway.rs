//! The gateway websocket service that clients send transactions and block
//! queries to: how it routes a request, how it words a new-block notice, and
//! which silent or unreachable clients it drops.
use vstd::prelude::*;
use crate::text::concat3;

verus! {

/// What a client request asks for.
pub enum Request {
    /// Process the transaction text.
    ProcessTransaction(String),
    /// Fetch the block with this hash.
    GetBlock(String),
    /// Nothing the gateway serves.
    Ignore,
}

/// The characters of an optional string.
pub open spec fn text_of(o: Option<String>) -> Option<Seq<char>> {
    match o {
        Some(s) => Some(s@),
        None => None,
    }
}

/// The request that a JSON object with these `type`, `txn` and `hash`
/// string fields makes: a `transaction` needs a `txn`, a `get_block` a
/// `hash`; anything else is ignored.
pub open spec fn routes_to(
    kind: Option<Seq<char>>,
    txn: Option<Seq<char>>,
    hash: Option<Seq<char>>,
    r: Request,
) -> bool {
    match kind {
        Some(k) => if k == "transaction"@ {
            match txn {
                Some(t) => r matches Request::ProcessTransaction(x) && x@ == t,
                None => r is Ignore,
            }
        } else if k == "get_block"@ {
            match hash {
                Some(h) => r matches Request::GetBlock(x) && x@ == h,
                None => r is Ignore,
            }
        } else {
            r is Ignore
        },
        None => r is Ignore,
    }
}

/// A `transaction` request with a `txn` string is processed, and a
/// `get_block` request with a `hash` string is served, whatever the other
/// field holds; a request of any other type, or without the field its type
/// needs, is ignored. A request is processed or served only for those
/// types, with the text of that field.
pub proof fn law_routing(
    kind: Option<Seq<char>>,
    txn: Option<Seq<char>>,
    hash: Option<Seq<char>>,
    r: Request,
)
    requires
        routes_to(kind, txn, hash, r),
    ensures
        (kind == Some("transaction"@) && txn is Some) ==> (r matches Request::ProcessTransaction(x) && x@
            == txn->0),
        (kind == Some("get_block"@) && hash is Some) ==> (r matches Request::GetBlock(x) && x@ == hash->0),
        (kind != Some("transaction"@) && kind != Some("get_block"@)) ==> r is Ignore,
        r matches Request::ProcessTransaction(x) ==> kind == Some("transaction"@) && txn == Some(x@),
        r matches Request::GetBlock(x) ==> kind == Some("get_block"@) && hash == Some(x@),
{
    reveal_strlit("transaction");
    reveal_strlit("get_block");
    assert("transaction"@ != "get_block"@) by {
        assert("transaction"@[0] != "get_block"@[0]);
    }
}

/// Routes a request from the fields of its JSON object: its `type`, and its
/// `txn` and `hash` where they are strings.
pub fn route_request(kind: Option<String>, txn: Option<String>, hash: Option<String>) -> (r: Request)
    ensures
        routes_to(text_of(kind), text_of(txn), text_of(hash), r),
        (text_of(kind) == Some("transaction"@) && txn is Some) ==> (r matches Request::ProcessTransaction(x)
            && x@ == txn->0@),
        (text_of(kind) == Some("get_block"@) && hash is Some) ==> (r matches Request::GetBlock(x) && x@
            == hash->0@),
{
    proof {
        reveal_strlit("transaction");
        reveal_strlit("get_block");
        assert("transaction"@[0] != "get_block"@[0]);
    }
    match kind {
        None => Request::Ignore,
        Some(k) => {
            let transaction = "transaction".to_owned();
            let get_block = "get_block".to_owned();
            if k == transaction {
                match txn {
                    Some(t) => Request::ProcessTransaction(t),
                    None => Request::Ignore,
                }
            } else if k == get_block {
                match hash {
                    Some(h) => Request::GetBlock(h),
                    None => Request::Ignore,
                }
            } else {
                Request::Ignore
            }
        },
    }
}

/// What `serde_json` reads from a text: `None` where the text is not JSON,
/// else the string values of the fields named `k1`, `k2` and `k3` (each
/// `None` where the field is absent or not a string).
pub uninterp spec fn json_string_fields(text: Seq<char>, k1: Seq<char>, k2: Seq<char>, k3: Seq<char>) -> Option<(Option<Seq<char>>, Option<Seq<char>>, Option<Seq<char>>)>;

/// Parses a text as JSON by `serde_json::from_str` into a
/// `serde_json::Value`, and reads the fields named `k1`, `k2` and `k3` with
/// `Value::get` and `Value::as_str`. Claims: the result is the named one
/// for the text and the three names.
#[verifier::external_body]
fn json_fields(text: &str, k1: &str, k2: &str, k3: &str) -> (r: Option<(Option<String>, Option<String>, Option<String>)>)
    ensures
        match r {
            Some((a, b, c)) => json_string_fields(text@, k1@, k2@, k3@) == Some((text_of(a), text_of(b), text_of(c))),
            None => json_string_fields(text@, k1@, k2@, k3@) is None,
        },
{
    match serde_json::from_str::<serde_json::Value>(text) {
        Ok(json) => Some((
            json.get(k1).and_then(serde_json::Value::as_str).map(str::to_owned),
            json.get(k2).and_then(serde_json::Value::as_str).map(str::to_owned),
            json.get(k3).and_then(serde_json::Value::as_str).map(str::to_owned),
        )),
        Err(_) => None,
    }
}

/// Routes the text of a client's frame: a JSON text is routed by its
/// `type`, `txn` and `hash` fields (see `route_request`); any other text
/// is ignored.
pub fn route_frame(text: &str) -> (r: Request)
    ensures
        match json_string_fields(text@, "type"@, "txn"@, "hash"@) {
            Some((k, t, h)) => routes_to(k, t, h, r),
            None => r is Ignore,
        },
{
    match json_fields(text, "type", "txn", "hash") {
        Some((kind, txn, hash)) => route_request(kind, txn, hash),
        None => Request::Ignore,
    }
}

/// The notice sent to every client when a block is committed:
/// `{"type": "block_hash", "hash": "<hash>"}`.
pub fn block_hash_notice(block_hash: &str) -> (text: String)
    ensures
        text@ == "{\"type\": \"block_hash\", \"hash\": \""@ + block_hash@ + "\"}"@,
{
    concat3("{\"type\": \"block_hash\", \"hash\": \"", block_hash, "\"}")
}

/// The ping the gateway sends on every heartbeat.
pub fn ping_message() -> (text: String)
    ensures
        text@ == "{\"type\": \"ping\"}"@,
{
    "{\"type\": \"ping\"}".to_owned()
}

/// Seconds between heartbeats.
pub const HEARTBEAT_INTERVAL_SECS: u64 = 5;

/// A client silent for longer than this is dropped (10 s, in nanoseconds).
pub const CLIENT_TIMEOUT_NANOS: u128 = 10_000_000_000;

/// What a heartbeat learns of a client: whether the ping could be queued to
/// it, and how long it has been since it was last heard from.
pub struct PeerStatus {
    pub ping_queued: bool,
    pub silent_nanos: u128,
}

/// Whether a client is dropped at a heartbeat: when the ping cannot be
/// queued, or when it has been silent for longer than the timeout.
pub open spec fn dropped(p: PeerStatus) -> bool {
    !p.ping_queued || p.silent_nanos > CLIENT_TIMEOUT_NANOS
}

/// The indices of the clients a heartbeat drops, in order.
pub fn peers_to_remove(peers: &Vec<PeerStatus>) -> (r: Vec<usize>)
    ensures
        forall|k: int| #![trigger r@[k]] 0 <= k < r@.len() ==> r@[k] < peers@.len() && dropped(peers@[r@[k] as int]),
        forall|i: int| 0 <= i < peers@.len() && dropped(#[trigger] peers@[i]) ==> r@.contains(i as usize),
        forall|a: int, b: int| 0 <= a < b < r@.len() ==> r@[a] < r@[b],
{
    let mut r: Vec<usize> = Vec::new();
    let mut i: usize = 0;
    while i < peers.len()
        invariant
            0 <= i <= peers@.len(),
            forall|k: int| #![trigger r@[k]] 0 <= k < r@.len() ==> r@[k] < i && dropped(peers@[r@[k] as int]),
            forall|j: int| 0 <= j < i && dropped(#[trigger] peers@[j]) ==> r@.contains(j as usize),
            forall|a: int, b: int| 0 <= a < b < r@.len() ==> r@[a] < r@[b],
        decreases peers@.len() - i,
    {
        let p = &peers[i];
        let ghost before = r@;
        if !p.ping_queued || p.silent_nanos > CLIENT_TIMEOUT_NANOS {
            assert(dropped(peers@[i as int]));
            r.push(i);
            proof {
                assert(r@ == before.push(i));
                assert(r@.len() == before.len() + 1);
                assert(r@[before.len() as int] == i);
                assert forall|k: int| #![trigger r@[k]] 0 <= k < r@.len() implies r@[k] < i + 1 && dropped(peers@[r@[k] as int]) by {
                    if k < before.len() {
                        assert(r@[k] == before[k]);
                    } else {
                        assert(r@[k] == i);
                    }
                }
                assert forall|a: int, b: int| 0 <= a < b < r@.len() implies r@[a] < r@[b] by {
                    if b < before.len() {
                        assert(r@[a] == before[a] && r@[b] == before[b]);
                    } else {
                        assert(r@[a] == before[a]);
                    }
                }
                assert forall|j: int| 0 <= j < i + 1 && dropped(#[trigger] peers@[j]) implies r@.contains(j as usize) by {
                    if j < i {
                        let k = choose|k: int| 0 <= k < before.len() && before[k] == j as usize;
                        assert(r@[k] == j as usize);
                    } else {
                        assert(r@[r@.len() - 1] == i);
                    }
                }
            }
        }
        i = i + 1;
    }
    r
}

/// The gateway's stand-in request handler: it accepts every transaction and
/// answers every block query with the same placeholder block.
#[derive(Clone, Copy)]
pub struct DummyHandler;

impl DummyHandler {
    /// Accepts the transaction.
    pub fn process_txn(&self, txn: String) -> (r: Result<(), String>)
        ensures
            r is Ok,
    {
        Ok(())
    }

    /// The placeholder block `1213`.
    pub fn get_block(&self, block_hash: String) -> (r: Result<String, String>)
        ensures
            r matches Ok(b) && b@ == "1213"@,
    {
        Ok("1213".to_owned())
    }
}

} // verus!
