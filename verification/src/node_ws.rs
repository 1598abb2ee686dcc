//! The node's client-facing websocket service: the wire form of field
//! vectors, the messages clients and server exchange, and the decisions the
//! server makes on them (who is subscribed, who gets which message).
use vstd::prelude::*;
use vstd::string::StringSliceAdditionalSpecFns;
use crate::crypto::Digest;
use crate::field::elements_to_bytes;
use crate::codec::{hex_encode, hex_decode, hex_encoding, hex_decoding, hex_bytes, ascii_bytes, lemma_hex_round_trip};

verus! {

/// The value whose big-endian base-256 digits are `bytes`.
pub open spec fn be_value(bytes: Seq<u8>) -> nat
    decreases bytes.len(),
{
    if bytes.len() == 0 {
        0
    } else {
        be_value(bytes.drop_last()) * 256 + bytes.last() as nat
    }
}

/// The eight big-endian bytes of a 64-bit value.
pub open spec fn be8(v: u64) -> Seq<u8> {
    Seq::new(8, |j: int| ((v as int / vstd::arithmetic::power::pow(256, (7 - j) as nat)) % 256) as u8)
}

/// The bytes of a field vector on the wire: eight big-endian bytes per value.
pub open spec fn fields_bytes(values: Seq<u64>) -> Seq<u8> {
    Seq::new(8 * values.len(), |j: int| be8(values[j / 8])[j % 8])
}

/// The values read from bytes whose length is a multiple of eight.
pub open spec fn bytes_fields(bytes: Seq<u8>) -> Seq<u64> {
    Seq::new(bytes.len() / 8, |i: int| be_value(bytes.subrange(8 * i, 8 * i + 8)) as u64)
}

/// Whether the text decodes as hexadecimal to a whole number of values (or
/// not at all): the texts that decoding accepts without panicking.
pub open spec fn whole_values(text: Seq<u8>) -> bool {
    hex_decoding(text) matches Some(b) ==> b.len() % 8 == 0
}

/// A vector of field values, carried on the wire as hexadecimal text of
/// their big-endian bytes.
pub struct Fields(pub Vec<u64>);

impl Clone for Fields {
    fn clone(&self) -> (f: Self)
        ensures
            f.0@ == self.0@,
    {
        Fields(self.0.clone())
    }
}

/// The eight big-endian bytes of `v`.
fn be_bytes_of(v: u64) -> (b: [u8; 8])
    ensures
        b@ == be8(v),
{
    let mut b = [0u8; 8];
    let mut x = v;
    let mut k: usize = 8;
    proof {
        vstd::arithmetic::power::lemma_pow0(256);
    }
    while k > 0
        invariant
            0 <= k <= 8,
            x as int == v as int / vstd::arithmetic::power::pow(256, (8 - k) as nat),
            forall|j: int| k <= j < 8 ==> #[trigger] b@[j] == be8(v)[j],
        decreases k,
    {
        k = k - 1;
        b[k] = (x % 256) as u8;
        proof {
            let e = (8 - (k + 1)) as nat;
            assert((7 - k) as nat == e);
            vstd::arithmetic::power::lemma_pow_adds(256, e, 1);
            vstd::arithmetic::power::lemma_pow1(256);
            vstd::arithmetic::power::lemma_pow_positive(256, e);
            vstd::arithmetic::div_mod::lemma_div_denominator(
                v as int,
                vstd::arithmetic::power::pow(256, e) as int,
                256,
            );
            vstd::arithmetic::mul::lemma_mul_is_commutative(vstd::arithmetic::power::pow(256, e) as int, 256);
        }
        x = x / 256;
    }
    b
}

/// The value of eight big-endian bytes.
fn value_of_be(b: &[u8], start: usize) -> (v: u64)
    requires
        start + 8 <= b@.len(),
        b@.len() <= usize::MAX,
    ensures
        v as nat == be_value(b@.subrange(start as int, start + 8)),
{
    let ghost s = b@.subrange(start as int, start + 8);
    let mut v: u64 = 0;
    let mut k: usize = 0;
    proof {
        assert(s.subrange(0, 0) =~= Seq::<u8>::empty());
    }
    while k < 8
        invariant
            0 <= k <= 8,
            start + 8 <= b@.len(),
            b@.len() <= usize::MAX,
            s == b@.subrange(start as int, start + 8),
            v as nat == be_value(s.subrange(0, k as int)),
            v as nat * vstd::arithmetic::power::pow(256, (8 - k) as nat) <= 0xFFFF_FFFF_FFFF_FFFF,
        decreases 8 - k,
    {
        let byte = b[start + k];
        proof {
            assert(s.subrange(0, k + 1).drop_last() =~= s.subrange(0, k as int));
            assert(s.subrange(0, k + 1).last() == byte);
            lemma_be_bound(s.subrange(0, k + 1));
            lemma_pow_step((8 - (k + 1)) as nat);
            vstd::arithmetic::power::lemma_pow_positive(256, (8 - (k + 1)) as nat);
            let p = vstd::arithmetic::power::pow(256, (8 - (k + 1)) as nat);
            assert((v as nat * 256 + byte as nat) * p <= 0xFFFF_FFFF_FFFF_FFFF) by (nonlinear_arith)
                requires
                    v as nat * (256 * p) <= 0xFFFF_FFFF_FFFF_FFFF,
                    be_value(s.subrange(0, k + 1)) == v as nat * 256 + byte as nat,
                    be_value(s.subrange(0, k + 1)) < vstd::arithmetic::power::pow(256, (k + 1) as nat),
                    vstd::arithmetic::power::pow(256, (k + 1) as nat) * p == 0x1_0000_0000_0000_0000,
                    p >= 1,
            {
            }
            assert(v as nat * 256 + byte as nat <= 0xFFFF_FFFF_FFFF_FFFF) by (nonlinear_arith)
                requires
                    (v as nat * 256 + byte as nat) * p <= 0xFFFF_FFFF_FFFF_FFFF,
                    p >= 1,
            {
            }
        }
        v = v * 256 + byte as u64;
        k = k + 1;
    }
    proof {
        assert(s.subrange(0, 8) =~= s);
    }
    v
}

/// `256^e * 256^(8-e) = 2^64`, and `256^(e+1) = 256 * 256^e`.
proof fn lemma_pow_step(e: nat)
    requires
        e <= 7,
    ensures
        vstd::arithmetic::power::pow(256, (8 - e) as nat) * vstd::arithmetic::power::pow(256, e)
            == 0x1_0000_0000_0000_0000,
        vstd::arithmetic::power::pow(256, e + 1) == 256 * vstd::arithmetic::power::pow(256, e),
{
    vstd::arithmetic::power::lemma_pow_adds(256, (8 - e) as nat, e);
    vstd::arithmetic::power::lemma_pow_adds(256, 1, e);
    vstd::arithmetic::power::lemma_pow1(256);
    vstd::arithmetic::power::lemma_pow0(256);
    reveal_with_fuel(vstd::arithmetic::power::pow, 9);
    assert(vstd::arithmetic::power::pow(256, 8) == 0x1_0000_0000_0000_0000);
}

/// A big-endian value of `n` bytes is below `256^n`.
proof fn lemma_be_bound(bytes: Seq<u8>)
    ensures
        be_value(bytes) < vstd::arithmetic::power::pow(256, bytes.len()),
    decreases bytes.len(),
{
    vstd::arithmetic::power::lemma_pow0(256);
    if bytes.len() > 0 {
        lemma_be_bound(bytes.drop_last());
        vstd::arithmetic::power::lemma_pow_adds(256, 1, (bytes.len() - 1) as nat);
        vstd::arithmetic::power::lemma_pow1(256);
        let p = vstd::arithmetic::power::pow(256, (bytes.len() - 1) as nat);
        assert(be_value(bytes) <= (p - 1) * 256 + 255) by (nonlinear_arith)
            requires
                be_value(bytes) == be_value(bytes.drop_last()) * 256 + bytes.last() as nat,
                be_value(bytes.drop_last()) < p,
                bytes.last() <= 255,
        {
        }
    }
}

/// The wire text of a field vector: hexadecimal of eight big-endian bytes
/// per value.
pub fn serialize(values: &Vec<u64>) -> (text: String)
    ensures
        text@ == hex_encoding(fields_bytes(values@)),
{
    let mut bytes: Vec<u8> = Vec::new();
    let mut i: usize = 0;
    while i < values.len()
        invariant
            0 <= i <= values@.len(),
            bytes@ == fields_bytes(values@.subrange(0, i as int)),
        decreases values@.len() - i,
    {
        let b = be_bytes_of(values[i]);
        let mut k: usize = 0;
        let ghost before = bytes@;
        while k < 8
            invariant
                0 <= i < values@.len(),
                0 <= k <= 8,
                b@ == be8(values@[i as int]),
                before == fields_bytes(values@.subrange(0, i as int)),
                bytes@ == before + b@.subrange(0, k as int),
            decreases 8 - k,
        {
            bytes.push(b[k]);
            k = k + 1;
            assert(bytes@ =~= before + b@.subrange(0, k as int));
        }
        proof {
            let next = values@.subrange(0, i + 1);
            assert forall|j: int| 0 <= j < 8 * (i + 1) implies #[trigger] bytes@[j] == fields_bytes(next)[j] by {
                if j < 8 * i {
                    assert(values@.subrange(0, i as int)[j / 8] == next[j / 8]);
                } else {
                    assert(j / 8 == i);
                }
            }
            assert(bytes@ =~= fields_bytes(next));
        }
        i = i + 1;
    }
    assert(values@.subrange(0, i as int) =~= values@);
    hex_encode(bytes.as_slice())
}

/// The field vector of a wire text. Text that is not hexadecimal of even
/// length is rejected; text that decodes to a number of bytes that is not a
/// multiple of eight is outside what this accepts.
pub fn deserialize(text: &str) -> (r: Result<Vec<u64>, hex::FromHexError>)
    requires
        whole_values(text.spec_bytes()),
    ensures
        match r {
            Ok(values) => hex_decoding(text.spec_bytes()) matches Some(b) && values@ == bytes_fields(b),
            Err(_) => hex_decoding(text.spec_bytes()) is None,
        },
{
    match hex_decode(text.as_bytes()) {
        Err(e) => Err(e),
        Ok(bytes) => {
            let mut values: Vec<u64> = Vec::new();
            let n = bytes.len() / 8;
            let mut i: usize = 0;
            while i < n
                invariant
                    0 <= i <= n,
                    n == bytes@.len() / 8,
                    bytes@.len() == bytes.len(),
                    bytes@.len() % 8 == 0,
                    values@ == bytes_fields(bytes@).subrange(0, i as int),
                decreases n - i,
            {
                let v = value_of_be(bytes.as_slice(), 8 * i);
                values.push(v);
                i = i + 1;
                assert(values@ =~= bytes_fields(bytes@).subrange(0, i as int));
            }
            assert(bytes_fields(bytes@).subrange(0, i as int) =~= bytes_fields(bytes@));
            Ok(values)
        },
    }
}

/// Whether a wire text decodes to a whole number of values (or not at all).
fn check_whole_values(text: &str) -> (ok: bool)
    ensures
        ok == whole_values(text.spec_bytes()),
{
    match hex_decode(text.as_bytes()) {
        Ok(bytes) => bytes.len() % 8 == 0,
        Err(_) => true,
    }
}

/// `deserialize` where the text decodes to a whole number of values;
/// `None` for text that decodes to a number of bytes that is not a multiple
/// of eight.
pub fn try_deserialize(text: &str) -> (r: Option<Result<Vec<u64>, hex::FromHexError>>)
    ensures
        r is None <==> !whole_values(text.spec_bytes()),
        r matches Some(Ok(values)) ==> hex_decoding(text.spec_bytes()) matches Some(b) && values@ == bytes_fields(b),
        r matches Some(Err(_)) ==> hex_decoding(text.spec_bytes()) is None,
{
    if check_whole_values(text) {
        Some(deserialize(text))
    } else {
        None
    }
}

/// Reading the big-endian bytes of a value gives it back.
proof fn lemma_be8_value(v: u64)
    ensures
        be_value(be8(v)) == v,
{
    let b = be8(v);
    assert forall|k: nat| k <= 8 implies be_value(#[trigger] b.subrange(0, k as int)) == v as int
        / vstd::arithmetic::power::pow(256, (8 - k) as nat) by {
        lemma_be8_prefix(v, k);
    }
    assert(b.subrange(0, 8) =~= b);
    vstd::arithmetic::power::lemma_pow0(256);
}

proof fn lemma_be8_prefix(v: u64, k: nat)
    requires
        k <= 8,
    ensures
        be_value(be8(v).subrange(0, k as int)) == v as int / vstd::arithmetic::power::pow(256, (8 - k) as nat),
    decreases k,
{
    let b = be8(v);
    if k == 0 {
        assert(b.subrange(0, 0) =~= Seq::<u8>::empty());
        lemma_pow_step(0);
        vstd::arithmetic::power::lemma_pow0(256);
        assert(v as int / 0x1_0000_0000_0000_0000 == 0);
    } else {
        lemma_be8_prefix(v, (k - 1) as nat);
        assert(b.subrange(0, k as int).drop_last() =~= b.subrange(0, k - 1));
        let e = (8 - k) as nat;
        vstd::arithmetic::power::lemma_pow_adds(256, e, 1);
        vstd::arithmetic::power::lemma_pow1(256);
        vstd::arithmetic::power::lemma_pow_positive(256, e);
        let p = vstd::arithmetic::power::pow(256, e);
        assert(vstd::arithmetic::power::pow(256, (8 - (k - 1)) as nat) == p * 256);
        vstd::arithmetic::div_mod::lemma_div_denominator(v as int, p as int, 256);
        let q = v as int / p;
        assert(b[k - 1] == (q % 256) as u8);
        assert(q == (q / 256) * 256 + q % 256) by (nonlinear_arith)
            requires
                q >= 0,
        {
        }
    }
}

/// Decoding the wire text of a field vector gives the vector back.
pub proof fn law_fields_round_trip(values: Seq<u64>)
    ensures
        hex_decoding(ascii_bytes(hex_encoding(fields_bytes(values)))) == Some(fields_bytes(values)),
        whole_values(ascii_bytes(hex_encoding(fields_bytes(values)))),
        bytes_fields(fields_bytes(values)) == values,
{
    lemma_hex_round_trip(fields_bytes(values));
    let b = fields_bytes(values);
    assert forall|i: int| 0 <= i < values.len() implies #[trigger] bytes_fields(b)[i] == values[i] by {
        let chunk = b.subrange(8 * i, 8 * i + 8);
        assert forall|k: int| 0 <= k < 8 implies chunk[k] == #[trigger] be8(values[i])[k] by {
            assert((8 * i + k) / 8 == i);
            assert((8 * i + k) % 8 == k);
        }
        assert(chunk =~= be8(values[i]));
        lemma_be8_value(values[i]);
    }
    assert(bytes_fields(b) =~= values);
}

/// A message between a client and the server.
pub enum Message {
    SubscribeChainUpdate,
    UnsubscribeChainUpdate,
    ChainUpdate(Fields),
    SendTransactions(Vec<Fields>),
    RequestBlocks(Vec<Fields>),
    SyncBlocks(Vec<Fields>),
}

/// An event for the server's client registry. (The channel to a new client
/// stays with the service; the registry keeps who is connected and who is
/// subscribed.)
pub enum ServerMessage {
    NewClient { id: String },
    ClientDisconnected { id: String },
    Subscribe { client_id: String },
    Unsubscribe { client_id: String },
    BroadcastChainUpdate { hash: Fields },
    SendSyncBlocks { client_id: String, sync_blocks: Vec<Fields> },
}

/// A connected client and whether it follows chain updates.
pub struct ClientConnection {
    pub id: String,
    pub subscribed: bool,
}

/// A message to be sent to one client.
pub struct Delivery {
    pub client_id: String,
    pub message: Message,
}

/// The registry's state: connected clients, by id, each with its
/// subscription, in order of connection.
pub type ClientsView = Seq<(Seq<char>, bool)>;

/// Whether no client id occurs twice.
pub open spec fn ids_distinct(c: ClientsView) -> bool {
    forall|i: int, j: int| 0 <= i < j < c.len() ==> c[i].0 != c[j].0
}

/// Whether `id` is connected.
pub open spec fn connected(c: ClientsView, id: Seq<char>) -> bool {
    exists|i: int| 0 <= i < c.len() && c[i].0 == id
}

/// The clients after `id` connects: a new, unsubscribed entry, replacing
/// the entry it had if it was connected.
pub open spec fn connect(c: ClientsView, id: Seq<char>) -> ClientsView {
    if connected(c, id) {
        c.update(choose|i: int| 0 <= i < c.len() && c[i].0 == id, (id, false))
    } else {
        c.push((id, false))
    }
}

/// The clients after `id` disconnects.
pub open spec fn disconnect(c: ClientsView, id: Seq<char>) -> ClientsView {
    c.filter(other_than(id))
}

/// Whether an entry is not that of `id`.
pub open spec fn other_than(id: Seq<char>) -> spec_fn((Seq<char>, bool)) -> bool {
    |e: (Seq<char>, bool)| e.0 != id
}

/// Whether an entry is subscribed.
pub open spec fn subscribed_entry() -> spec_fn((Seq<char>, bool)) -> bool {
    |e: (Seq<char>, bool)| e.1
}

/// The clients after `id` (if connected) sets its subscription to `on`.
pub open spec fn subscribe(c: ClientsView, id: Seq<char>, on: bool) -> ClientsView {
    c.map_values(|e: (Seq<char>, bool)| if e.0 == id { (id, on) } else { e })
}

/// The subscribed clients, in order.
pub open spec fn subscribers(c: ClientsView) -> Seq<Seq<char>> {
    c.filter(subscribed_entry()).map_values(|e: (Seq<char>, bool)| e.0)
}

/// Whether `m` is a chain update carrying `hash`.
pub open spec fn is_chain_update(m: Message, hash: Seq<u64>) -> bool {
    match m {
        Message::ChainUpdate(f) => f.0@ == hash,
        _ => false,
    }
}

/// Whether `m` is a batch of sync blocks carrying `blocks`.
pub open spec fn is_sync_blocks(m: Message, blocks: Seq<Fields>) -> bool {
    match m {
        Message::SyncBlocks(b) => b@ == blocks,
        _ => false,
    }
}

/// The registry of connected clients.
pub struct ClientRegistry {
    clients: Vec<ClientConnection>,
}

/// Whether two ids are equal.
fn ids_equal(a: &String, b: &String) -> (r: bool)
    ensures
        r == (a@ == b@),
{
    *a == *b
}

impl ClientRegistry {
    #[verifier::type_invariant]
    pub closed spec fn inv(&self) -> bool {
        ids_distinct(self.view())
    }

    /// The connected clients, by id, with their subscriptions.
    pub closed spec fn view(&self) -> ClientsView {
        self.clients@.map_values(|c: ClientConnection| (c.id@, c.subscribed))
    }

    /// No client is connected.
    pub fn new() -> (r: ClientRegistry)
        ensures
            r.view() == Seq::<(Seq<char>, bool)>::empty(),
            ids_distinct(r.view()),
    {
        let r = ClientRegistry { clients: Vec::new() };
        assert(r.view() =~= Seq::<(Seq<char>, bool)>::empty());
        r
    }

    /// The index of client `id`, if connected.
    fn find(&self, id: &String) -> (r: Option<usize>)
        ensures
            match r {
                Some(i) => i < self.view().len() && self.view()[i as int].0 == id@,
                None => !connected(self.view(), id@),
            },
    {
        let mut i: usize = 0;
        while i < self.clients.len()
            invariant
                0 <= i <= self.clients@.len(),
                forall|j: int| 0 <= j < i ==> self.view()[j].0 != id@,
            decreases self.clients@.len() - i,
        {
            if ids_equal(&self.clients[i].id, id) {
                return Some(i);
            }
            i = i + 1;
        }
        None
    }

    /// Applies one event, and gives the messages it sends, in order:
    /// a broadcast goes to every subscribed client; a batch of sync blocks
    /// goes to its client if connected.
    pub fn apply(&mut self, message: ServerMessage) -> (out: Vec<Delivery>)
        ensures
            ids_distinct(old(self).view()),
            ids_distinct(final(self).view()),
            match message {
                ServerMessage::NewClient { id } => final(self).view() == connect(old(self).view(), id@)
                    && out@.len() == 0,
                ServerMessage::ClientDisconnected { id } => final(self).view() == disconnect(
                    old(self).view(),
                    id@,
                ) && out@.len() == 0,
                ServerMessage::Subscribe { client_id } => final(self).view() == subscribe(
                    old(self).view(),
                    client_id@,
                    true,
                ) && out@.len() == 0,
                ServerMessage::Unsubscribe { client_id } => final(self).view() == subscribe(
                    old(self).view(),
                    client_id@,
                    false,
                ) && out@.len() == 0,
                ServerMessage::BroadcastChainUpdate { hash } => final(self).view() == old(self).view()
                    && out@.len() == subscribers(old(self).view()).len() && forall|i: int|
                    0 <= i < out@.len() ==> #[trigger] out@[i].client_id@ == subscribers(
                        old(self).view(),
                    )[i] && is_chain_update(out@[i].message, hash.0@),
                ServerMessage::SendSyncBlocks { client_id, sync_blocks } => final(self).view()
                    == old(self).view() && if connected(old(self).view(), client_id@) {
                    out@.len() == 1 && out@[0].client_id@ == client_id@ && is_sync_blocks(out@[0].message, sync_blocks@)
                } else {
                    out@.len() == 0
                },
            },
    {
        proof {
            use_type_invariant(&*self);
        }
        let out = match message {
            ServerMessage::NewClient { id } => {
                self.connect(id);
                Vec::new()
            },
            ServerMessage::ClientDisconnected { id } => {
                self.disconnect(&id);
                Vec::new()
            },
            ServerMessage::Subscribe { client_id } => {
                self.set_subscription(&client_id, true);
                Vec::new()
            },
            ServerMessage::Unsubscribe { client_id } => {
                self.set_subscription(&client_id, false);
                Vec::new()
            },
            ServerMessage::BroadcastChainUpdate { hash } => self.broadcast(&hash),
            ServerMessage::SendSyncBlocks { client_id, sync_blocks } => {
                let mut out: Vec<Delivery> = Vec::new();
                if self.find(&client_id).is_some() {
                    out.push(Delivery { client_id, message: Message::SyncBlocks(sync_blocks) });
                }
                out
            },
        };
        proof {
            use_type_invariant(&*self);
        }
        out
    }

    fn connect(&mut self, id: String)
        ensures
            final(self).view() == connect(old(self).view(), id@),
    {
        proof {
            use_type_invariant(&*self);
        }
        let ghost c = self.view();
        let ghost idv = id@;
        let found = self.find(&id);
        let mut clients: Vec<ClientConnection> = Vec::new();
        std::mem::swap(&mut clients, &mut self.clients);
        assert(clients@.map_values(|x: ClientConnection| (x.id@, x.subscribed)) == c);
        match found {
            Some(i) => {
                proof {
                    let k = choose|j: int| 0 <= j < c.len() && c[j].0 == idv;
                    assert(k == i as int);
                }
                clients.set(i, ClientConnection { id, subscribed: false });
                let ghost nv = clients@.map_values(|x: ClientConnection| (x.id@, x.subscribed));
                assert(nv =~= c.update(i as int, (idv, false)));
                assert(ids_distinct(nv)) by {
                    assert forall|a: int, b: int| 0 <= a < b < nv.len() implies nv[a].0 != nv[b].0 by {
                        if a != i && b != i {
                            assert(nv[a] == c[a] && nv[b] == c[b]);
                        } else if a == i {
                            assert(nv[b] == c[b]);
                        } else {
                            assert(nv[a] == c[a]);
                        }
                    }
                }
                *self = ClientRegistry { clients };
            },
            None => {
                clients.push(ClientConnection { id, subscribed: false });
                let ghost nv = clients@.map_values(|x: ClientConnection| (x.id@, x.subscribed));
                assert(nv =~= c.push((idv, false)));
                assert(ids_distinct(nv)) by {
                    assert forall|a: int, b: int| 0 <= a < b < nv.len() implies nv[a].0 != nv[b].0 by {
                        if b == c.len() {
                            assert(nv[a] == c[a]);
                        } else {
                            assert(nv[a] == c[a] && nv[b] == c[b]);
                        }
                    }
                }
                *self = ClientRegistry { clients };
            },
        }
    }

    fn disconnect(&mut self, id: &String)
        ensures
            final(self).view() == disconnect(old(self).view(), id@),
    {
        proof {
            use_type_invariant(&*self);
        }
        let ghost c = self.view();
        let mut old_clients: Vec<ClientConnection> = Vec::new();
        std::mem::swap(&mut old_clients, &mut self.clients);
        let mut kept: Vec<ClientConnection> = Vec::new();
        let mut i: usize = 0;
        let ghost f = other_than(id@);
        while i < old_clients.len()
            invariant
                0 <= i <= old_clients@.len(),
                c == old_clients@.map_values(|x: ClientConnection| (x.id@, x.subscribed)),
                ids_distinct(c),
                f == other_than(id@),
                kept@.map_values(|x: ClientConnection| (x.id@, x.subscribed)) == c.subrange(0, i as int).filter(f),
            decreases old_clients@.len() - i,
        {
            proof {
                assert(c.subrange(0, i + 1).drop_last() =~= c.subrange(0, i as int));
                reveal_with_fuel(Seq::filter, 1);
            }
            if !ids_equal(&old_clients[i].id, id) {
                let x = ClientConnection { id: old_clients[i].id.clone(), subscribed: old_clients[i].subscribed };
                kept.push(x);
            }
            i = i + 1;
            assert(kept@.map_values(|x: ClientConnection| (x.id@, x.subscribed)) =~= c.subrange(0, i as int).filter(f));
        }
        assert(c.subrange(0, i as int) =~= c);
        proof {
            lemma_filter_distinct(c, f);
        }
        *self = ClientRegistry { clients: kept };
    }

    fn set_subscription(&mut self, id: &String, on: bool)
        ensures
            final(self).view() == subscribe(old(self).view(), id@, on),
    {
        proof {
            use_type_invariant(&*self);
        }
        let ghost c = self.view();
        let mut clients: Vec<ClientConnection> = Vec::new();
                std::mem::swap(&mut clients, &mut self.clients);
        let mut i: usize = 0;
        while i < clients.len()
            invariant
                0 <= i <= clients@.len(),
                clients@.len() == c.len(),
                forall|j: int| 0 <= j < i ==> (#[trigger] clients@[j]).id@ == c[j].0 && clients@[j].subscribed
                    == (if c[j].0 == id@ { on } else { c[j].1 }),
                forall|j: int| i <= j < c.len() ==> (#[trigger] clients@[j]).id@ == c[j].0 && clients@[j].subscribed
                    == c[j].1,
            decreases clients@.len() - i,
        {
            if ids_equal(&clients[i].id, id) {
                let x = ClientConnection { id: clients[i].id.clone(), subscribed: on };
                clients.set(i, x);
            }
            i = i + 1;
        }
        let r = ClientRegistry { clients };
        assert(r.view() =~= subscribe(c, id@, on));
        *self = r;
    }

    fn broadcast(&self, hash: &Fields) -> (out: Vec<Delivery>)
        ensures
            out@.len() == subscribers(self.view()).len(),
            forall|i: int|
                0 <= i < out@.len() ==> #[trigger] out@[i].client_id@ == subscribers(self.view())[i]
                    && is_chain_update(out@[i].message, hash.0@),
    {
        let ghost c = self.view();
        let ghost f = subscribed_entry();
        let mut out: Vec<Delivery> = Vec::new();
        let mut i: usize = 0;
        while i < self.clients.len()
            invariant
                0 <= i <= self.clients@.len(),
                c == self.view(),
                f == subscribed_entry(),
                out@.len() == subscribers(c.subrange(0, i as int)).len(),
                forall|k: int|
                    0 <= k < out@.len() ==> #[trigger] out@[k].client_id@ == subscribers(c.subrange(0, i as int))[k]
                        && is_chain_update(out@[k].message, hash.0@),
            decreases self.clients@.len() - i,
        {
            let ghost before = out@;
            proof {
                assert(c.subrange(0, i + 1).drop_last() =~= c.subrange(0, i as int));
                reveal_with_fuel(Seq::filter, 1);
            }
            if self.clients[i].subscribed {
                out.push(Delivery { client_id: self.clients[i].id.clone(), message: Message::ChainUpdate(hash.clone()) });
            }
            i = i + 1;
            proof {
                let sp = subscribers(c.subrange(0, i as int));
                assert forall|k: int| 0 <= k < out@.len() implies #[trigger] out@[k].client_id@ == sp[k]
                    && is_chain_update(out@[k].message, hash.0@) by {
                    if k < before.len() {
                        assert(out@[k] == before[k]);
                    }
                }
            }
        }
        assert(c.subrange(0, i as int) =~= c);
        out
    }
}

/// Filtering keeps ids distinct.
proof fn lemma_filter_distinct(c: ClientsView, f: spec_fn((Seq<char>, bool)) -> bool)
    requires
        ids_distinct(c),
    ensures
        ids_distinct(c.filter(f)),
    decreases c.len(),
{
    reveal_with_fuel(Seq::filter, 1);
    if c.len() > 0 {
        lemma_filter_distinct(c.drop_last(), f);
        let d = c.drop_last().filter(f);
        if f(c.last()) {
            assert(c.filter(f) == d.push(c.last()));
            assert forall|i: int| 0 <= i < d.len() implies d[i].0 != c.last().0 by {
                c.drop_last().lemma_filter_contains_rev(f, d[i]);
                let j = choose|j: int| 0 <= j < c.drop_last().len() && c.drop_last()[j] == d[i];
                assert(c[j] == d[i]);
            }
        }
    }
}

/// What the server does with a message from a client.
pub enum ClientAction {
    /// Tell the registry.
    Notify(ServerMessage),
    /// Hand each transaction to the mempool, in order.
    SubmitTransactions(Vec<Fields>),
    /// Look up the block after each given previous-block digest, in order,
    /// and answer with those found (see `sync_blocks_reply`).
    LookUpBlocks(Vec<Fields>),
    /// Nothing.
    Ignore,
}

/// Decides what a message from client `client_id` calls for: subscription
/// changes go to the registry, transactions to the mempool, block requests
/// to the store; chain updates and sync blocks from a client are ignored.
pub fn handle_client_message(message: Message, client_id: &str) -> (a: ClientAction)
    ensures
        match message {
            Message::SubscribeChainUpdate => a matches ClientAction::Notify(ServerMessage::Subscribe { client_id: id })
                && id@ == client_id@,
            Message::UnsubscribeChainUpdate => a matches ClientAction::Notify(ServerMessage::Unsubscribe { client_id: id })
                && id@ == client_id@,
            Message::SendTransactions(t) => a matches ClientAction::SubmitTransactions(u) && u@ == t@,
            Message::RequestBlocks(r) => a matches ClientAction::LookUpBlocks(u) && u@ == r@,
            Message::SyncBlocks(_) => a is Ignore,
            Message::ChainUpdate(_) => a is Ignore,
        },
{
    match message {
        Message::SubscribeChainUpdate => ClientAction::Notify(ServerMessage::Subscribe { client_id: client_id.to_owned() }),
        Message::UnsubscribeChainUpdate => ClientAction::Notify(
            ServerMessage::Unsubscribe { client_id: client_id.to_owned() },
        ),
        Message::SendTransactions(t) => ClientAction::SubmitTransactions(t),
        Message::RequestBlocks(r) => ClientAction::LookUpBlocks(r),
        Message::SyncBlocks(_) => ClientAction::Ignore,
        Message::ChainUpdate(_) => ClientAction::Ignore,
    }
}

/// The answer to a block request once the blocks found are known: nothing
/// when none was found, else the found blocks for the requesting client.
pub fn sync_blocks_reply(client_id: &str, found: Vec<Fields>) -> (r: Option<ServerMessage>)
    ensures
        found@.len() == 0 ==> r is None,
        found@.len() > 0 ==> (r matches Some(ServerMessage::SendSyncBlocks { client_id: id, sync_blocks: b })
            && id@ == client_id@ && b@ == found@),
{
    if found.len() == 0 {
        None
    } else {
        Some(ServerMessage::SendSyncBlocks { client_id: client_id.to_owned(), sync_blocks: found })
    }
}

/// The store key of the block that follows the previous-block digest in
/// `prev_hash`: the digest packed from its first four field values.
pub fn block_store_key(prev_hash: &Fields) -> (k: Vec<u8>)
    requires
        prev_hash.0@.len() >= 4,
    ensures
        k@ == elements_to_bytes(prev_hash.0@.subrange(0, 4)),
{
    let elements: [u64; 4] = [prev_hash.0[0], prev_hash.0[1], prev_hash.0[2], prev_hash.0[3]];
    assert(elements@ =~= prev_hash.0@.subrange(0, 4));
    Digest::from_field(elements).to_vec()
}

/// A client that connects starts connected and unsubscribed.
pub proof fn law_new_client_is_unsubscribed(c: ClientsView, id: Seq<char>)
    requires
        ids_distinct(c),
    ensures
        connected(connect(c, id), id),
        !subscribers(connect(c, id)).contains(id),
{
    let n = connect(c, id);
    if connected(c, id) {
        let k = choose|i: int| 0 <= i < c.len() && c[i].0 == id;
        assert(n[k].0 == id);
    } else {
        assert(n[c.len() as int].0 == id);
    }
    lemma_not_subscriber(n, id);
}

/// An entry for `id` that is unsubscribed, with distinct ids, keeps `id`
/// out of the subscribers.
proof fn lemma_not_subscriber(c: ClientsView, id: Seq<char>)
    requires
        forall|i: int| 0 <= i < c.len() && c[i].0 == id ==> !c[i].1,
    ensures
        !subscribers(c).contains(id),
{
    let f = subscribed_entry();
    if subscribers(c).contains(id) {
        let j = choose|j: int| 0 <= j < subscribers(c).len() && subscribers(c)[j] == id;
        let e = c.filter(f)[j];
        c.lemma_filter_pred(f, j);
        assert(c.filter(f).contains(e));
        c.lemma_filter_contains_rev(f, e);
        let i = choose|i: int| 0 <= i < c.len() && c[i] == e;
        assert(c[i].0 == id && c[i].1);
    }
}

/// A connected client that subscribes is among those a broadcast reaches.
pub proof fn law_subscribed_client_receives_updates(c: ClientsView, id: Seq<char>)
    requires
        connected(c, id),
    ensures
        subscribers(subscribe(c, id, true)).contains(id),
{
    let n = subscribe(c, id, true);
    let f = subscribed_entry();
    let k = choose|i: int| 0 <= i < c.len() && c[i].0 == id;
    assert(n[k] == (id, true));
    n.lemma_filter_contains(f, k);
    let j = choose|j: int| 0 <= j < n.filter(f).len() && n.filter(f)[j] == n[k];
    assert(subscribers(n)[j] == id);
}

/// A client that unsubscribes, or disconnects, is not among those a
/// broadcast reaches.
pub proof fn law_unsubscribed_client_receives_nothing(c: ClientsView, id: Seq<char>)
    ensures
        !subscribers(subscribe(c, id, false)).contains(id),
        !subscribers(disconnect(c, id)).contains(id),
        !connected(disconnect(c, id), id),
{
    let n = subscribe(c, id, false);
    lemma_not_subscriber(n, id);
    let d = disconnect(c, id);
    let p = other_than(id);
    assert forall|i: int| 0 <= i < d.len() implies d[i].0 != id by {
        c.lemma_filter_pred(p, i);
    }
    lemma_not_subscriber(d, id);
}

/// Subscribing or unsubscribing leaves who is connected unchanged.
pub proof fn law_subscription_keeps_connections(c: ClientsView, id: Seq<char>, on: bool, other: Seq<char>)
    ensures
        connected(subscribe(c, id, on), other) == connected(c, other),
{
    let n = subscribe(c, id, on);
    if connected(c, other) {
        let k = choose|i: int| 0 <= i < c.len() && c[i].0 == other;
        assert(n[k].0 == other);
    }
    if connected(n, other) {
        let k = choose|i: int| 0 <= i < n.len() && n[i].0 == other;
        assert(c[k].0 == other);
    }
}

/// A broadcast reaches each subscribed client exactly once: no client id
/// occurs twice among the subscribers of a registry.
pub proof fn law_broadcast_reaches_each_subscriber_once(c: ClientsView)
    requires
        ids_distinct(c),
    ensures
        subscribers(c).no_duplicates(),
{
    let f = subscribed_entry();
    lemma_filter_distinct(c, f);
    let d = c.filter(f);
    assert forall|i: int, j: int| 0 <= i < subscribers(c).len() && 0 <= j < subscribers(c).len() && i != j
        implies subscribers(c)[i] != subscribers(c)[j] by {
        if i < j {
            assert(d[i].0 != d[j].0);
        } else {
            assert(d[j].0 != d[i].0);
        }
    }
}

/// A client id is among the subscribers exactly when some entry with that
/// id is subscribed.
proof fn lemma_subscriber_iff(c: ClientsView, x: Seq<char>)
    ensures
        subscribers(c).contains(x) <==> exists|i: int| 0 <= i < c.len() && c[i].0 == x && c[i].1,
{
    let f = subscribed_entry();
    let d = c.filter(f);
    if subscribers(c).contains(x) {
        let j = choose|j: int| 0 <= j < subscribers(c).len() && subscribers(c)[j] == x;
        c.lemma_filter_pred(f, j);
        assert(d.contains(d[j]));
        c.lemma_filter_contains_rev(f, d[j]);
        let i = choose|i: int| 0 <= i < c.len() && c[i] == d[j];
        assert(c[i].0 == x && c[i].1);
    }
    if exists|i: int| 0 <= i < c.len() && c[i].0 == x && c[i].1 {
        let i = choose|i: int| 0 <= i < c.len() && c[i].0 == x && c[i].1;
        c.lemma_filter_contains(f, i);
        let j = choose|j: int| 0 <= j < d.len() && d[j] == c[i];
        assert(subscribers(c)[j] == x);
    }
}

/// Disconnecting `id` removes exactly the entry of `id`: every other
/// client's entry, with its subscription, stays, and nothing else is added.
/// So every other client stays connected, and subscribed, exactly as it was.
pub proof fn law_disconnect_removes_only_that_client(c: ClientsView, id: Seq<char>)
    ensures
        forall|e: (Seq<char>, bool)| #[trigger] disconnect(c, id).contains(e) <==> (c.contains(e) && e.0 != id),
        forall|other: Seq<char>| other != id ==> (connected(#[trigger] disconnect(c, id), other) <==> connected(c, other)),
        forall|other: Seq<char>| other != id ==> (#[trigger] subscribers(disconnect(c, id)).contains(other)
            <==> subscribers(c).contains(other)),
{
    let p = other_than(id);
    let d = disconnect(c, id);
    assert forall|e: (Seq<char>, bool)| #[trigger] d.contains(e) <==> (c.contains(e) && e.0 != id) by {
        if d.contains(e) {
            c.lemma_filter_contains_rev(p, e);
        }
        if c.contains(e) && e.0 != id {
            let i = choose|i: int| 0 <= i < c.len() && c[i] == e;
            c.lemma_filter_contains(p, i);
        }
    }
    assert forall|other: Seq<char>| other != id implies (connected(#[trigger] disconnect(c, id), other) <==> connected(c, other)) by {
        if connected(d, other) {
            let k = choose|k: int| 0 <= k < d.len() && d[k].0 == other;
            assert(d.contains(d[k]));
            let i = choose|i: int| 0 <= i < c.len() && c[i] == d[k];
            assert(c[i].0 == other);
        }
        if connected(c, other) {
            let k = choose|k: int| 0 <= k < c.len() && c[k].0 == other;
            assert(c.contains(c[k]));
            assert(d.contains(c[k]));
            let j = choose|j: int| 0 <= j < d.len() && d[j] == c[k];
            assert(d[j].0 == other);
        }
    }
    assert forall|other: Seq<char>| other != id implies (#[trigger] subscribers(disconnect(c, id)).contains(other)
        <==> subscribers(c).contains(other)) by {
        lemma_subscriber_iff(c, other);
        lemma_subscriber_iff(d, other);
        if exists|i: int| 0 <= i < d.len() && d[i].0 == other && d[i].1 {
            let k = choose|i: int| 0 <= i < d.len() && d[i].0 == other && d[i].1;
            assert(d.contains(d[k]));
            let i = choose|i: int| 0 <= i < c.len() && c[i] == d[k];
            assert(c[i].0 == other && c[i].1);
        }
        if exists|i: int| 0 <= i < c.len() && c[i].0 == other && c[i].1 {
            let k = choose|i: int| 0 <= i < c.len() && c[i].0 == other && c[i].1;
            assert(c.contains(c[k]));
            assert(d.contains(c[k]));
            let j = choose|j: int| 0 <= j < d.len() && d[j] == c[k];
            assert(d[j].0 == other && d[j].1);
        }
    }
}

} // verus!
