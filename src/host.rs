//! The host side of guest calls: routing by (namespace, operation), and the
//! state that the calls of one invocation read and change.
use vstd::prelude::*;
use vstd::utf8::{decode_utf8, valid_utf8};
use crate::codec::{
    decode_key_pair, decode_set_args, decode_set_many_args, encode_count,
    encode_entries, encode_lookup, entries_bytes, key_pair_of_bytes, lookup_bytes, lossy_text,
    set_args_of_bytes, set_many_args_of_bytes, u64_le_bytes, utf8_lossy,
};
use crate::kv::{
    lookup, outside_prefix, prefix_entries, store_del, store_set, store_set_many, EntryView,
    KvStore,
};
use crate::text::same_text;

verus! {

/// A capability that the host offers to guests.
#[derive(Clone, Copy, Debug, PartialEq, Eq, Structural)]
pub enum HostOp {
    /// `internals.panic`: the guest reports a fault with a message.
    Panic,
    /// `datetime.now`: the current time.
    Now,
    /// `db.get`
    DbGet,
    /// `db.set`
    DbSet,
    /// `db.del`
    DbDel,
    /// `db.get_prefix`
    DbGetPrefix,
    /// `db.set_many`
    DbSetMany,
    /// `db.del_prefix`
    DbDelPrefix,
}

/// Why a host call was refused.
#[derive(Clone, Copy, Debug, PartialEq, Eq, Structural)]
pub enum HostCallError {
    /// The (namespace, operation) pair names no capability.
    UnsupportedHostCall,
    /// The payload does not decode into the arguments of the operation.
    InvalidPayload,
}

/// What a host call answers.
#[derive(Debug)]
pub enum HostReply {
    /// These bytes go back to the guest.
    Bytes(Vec<u8>),
    /// The current time goes back to the guest; the caller reads the clock.
    CurrentTime,
}

/// A `HostReply` as contracts see it.
pub enum ReplyView {
    Bytes(Seq<u8>),
    CurrentTime,
}

pub open spec fn reply_view(r: Result<HostReply, HostCallError>) -> Result<ReplyView, HostCallError> {
    match r {
        Ok(HostReply::Bytes(b)) => Ok(ReplyView::Bytes(b@)),
        Ok(HostReply::CurrentTime) => Ok(ReplyView::CurrentTime),
        Err(e) => Err(e),
    }
}

/// The table of capabilities: which (namespace, operation) pairs exist.
pub open spec fn host_op(ns: Seq<char>, op: Seq<char>) -> Option<HostOp> {
    if ns == "internals"@ {
        if op == "panic"@ {
            Some(HostOp::Panic)
        } else {
            None
        }
    } else if ns == "datetime"@ {
        if op == "now"@ {
            Some(HostOp::Now)
        } else {
            None
        }
    } else if ns == "db"@ {
        if op == "get"@ {
            Some(HostOp::DbGet)
        } else if op == "set"@ {
            Some(HostOp::DbSet)
        } else if op == "del"@ {
            Some(HostOp::DbDel)
        } else if op == "get_prefix"@ {
            Some(HostOp::DbGetPrefix)
        } else if op == "set_many"@ {
            Some(HostOp::DbSetMany)
        } else if op == "del_prefix"@ {
            Some(HostOp::DbDelPrefix)
        } else {
            None
        }
    } else {
        None
    }
}

pub open spec fn bytes_reply(b: Seq<u8>) -> Result<ReplyView, HostCallError> {
    Ok(ReplyView::Bytes(b))
}

pub open spec fn empty_reply() -> Result<ReplyView, HostCallError> {
    Ok(ReplyView::Bytes(Seq::empty()))
}

/// One host call: the panic message and store after it, and its answer.
pub open spec fn call_model(
    panic: Option<Seq<char>>,
    store: Seq<EntryView>,
    ns: Seq<char>,
    op: Seq<char>,
    payload: Seq<u8>,
) -> (Option<Seq<char>>, Seq<EntryView>, Result<ReplyView, HostCallError>) {
    let refused = (panic, store, Err(HostCallError::InvalidPayload));
    match host_op(ns, op) {
        None => (panic, store, Err(HostCallError::UnsupportedHostCall)),
        Some(HostOp::Panic) => (Some(lossy_text(payload)), store, empty_reply()),
        Some(HostOp::Now) => (panic, store, Ok(ReplyView::CurrentTime)),
        Some(HostOp::DbGet) => match key_pair_of_bytes(payload) {
            Some((t, k)) => (panic, store, bytes_reply(lookup_bytes(lookup(store, t, k)))),
            None => refused,
        },
        Some(HostOp::DbSet) => match set_args_of_bytes(payload) {
            Some((t, k, v)) => (panic, store_set(store, t, k, v), empty_reply()),
            None => refused,
        },
        Some(HostOp::DbDel) => match key_pair_of_bytes(payload) {
            Some((t, k)) => (panic, store_del(store, t, k), empty_reply()),
            None => refused,
        },
        Some(HostOp::DbGetPrefix) => match key_pair_of_bytes(payload) {
            Some((t, p)) => (panic, store, bytes_reply(entries_bytes(prefix_entries(store, t, p)))),
            None => refused,
        },
        Some(HostOp::DbSetMany) => match set_many_args_of_bytes(payload) {
            Some((t, items)) => (panic, store_set_many(store, t, items), empty_reply()),
            None => refused,
        },
        Some(HostOp::DbDelPrefix) => match key_pair_of_bytes(payload) {
            Some((t, p)) => {
                let rest = outside_prefix(store, t, p);
                (panic, rest, bytes_reply(u64_le_bytes((store.len() - rest.len()) as u64)))
            },
            None => refused,
        },
    }
}

/// Finds the capability that a (namespace, operation) pair names.
pub fn route(namespace: &str, operation: &str) -> (r: Option<HostOp>)
    ensures
        r == host_op(namespace@, operation@),
{
    if same_text(namespace, "internals") {
        if same_text(operation, "panic") {
            Some(HostOp::Panic)
        } else {
            None
        }
    } else if same_text(namespace, "datetime") {
        if same_text(operation, "now") {
            Some(HostOp::Now)
        } else {
            None
        }
    } else if same_text(namespace, "db") {
        if same_text(operation, "get") {
            Some(HostOp::DbGet)
        } else if same_text(operation, "set") {
            Some(HostOp::DbSet)
        } else if same_text(operation, "del") {
            Some(HostOp::DbDel)
        } else if same_text(operation, "get_prefix") {
            Some(HostOp::DbGetPrefix)
        } else if same_text(operation, "set_many") {
            Some(HostOp::DbSetMany)
        } else if same_text(operation, "del_prefix") {
            Some(HostOp::DbDelPrefix)
        } else {
            None
        }
    } else {
        None
    }
}

fn encoded(b: Vec<u8>) -> (r: Result<HostReply, HostCallError>)
    ensures
        reply_view(r) == bytes_reply(b@),
{
    Ok(HostReply::Bytes(b))
}

fn done() -> (r: Result<HostReply, HostCallError>)
    ensures
        reply_view(r) == empty_reply(),
{
    let v: Vec<u8> = Vec::new();
    assert(v@ =~= Seq::<u8>::empty());
    Ok(HostReply::Bytes(v))
}

/// What the host keeps for one guest module: the panic message of the
/// running invocation, if the guest reported one, and the store.
pub struct HostState {
    pub panic: Option<String>,
    pub store: KvStore,
}

pub open spec fn opt_text_view(o: Option<String>) -> Option<Seq<char>> {
    match o {
        Some(s) => Some(s@),
        None => None,
    }
}

impl HostState {
    pub open spec fn wf(&self) -> bool {
        self.store.wf()
    }

    pub open spec fn panic_view(&self) -> Option<Seq<char>> {
        opt_text_view(self.panic)
    }

    /// No panic message and an empty store.
    pub fn new() -> (r: HostState)
        ensures
            r.wf(),
            r.panic is None,
            r.store@ == Seq::<EntryView>::empty(),
    {
        HostState { panic: None, store: KvStore::new() }
    }

    /// Clears the panic message; done at the start of every invocation.
    pub fn begin_invocation(&mut self)
        ensures
            final(self).panic is None,
            final(self).store == old(self).store,
    {
        self.panic = None;
    }

    /// The panic message that the guest reported, if any.
    pub fn panic_info(&self) -> (r: Option<String>)
        ensures
            opt_text_view(r) == self.panic_view(),
    {
        match &self.panic {
            Some(m) => Some(m.clone()),
            None => None,
        }
    }

    /// Serves one call of the guest. Unknown pairs and undecodable payloads
    /// are refused with an error; nothing here panics.
    pub fn handle_host_call(&mut self, namespace: &str, operation: &str, payload: &[u8]) -> (r:
        Result<HostReply, HostCallError>)
        requires
            old(self).wf(),
        ensures
            final(self).wf(),
            (final(self).panic_view(), final(self).store@, reply_view(r)) == call_model(
                old(self).panic_view(),
                old(self).store@,
                namespace@,
                operation@,
                payload@,
            ),
            host_op(namespace@, operation@) == Some(HostOp::Panic) && valid_utf8(payload@)
                ==> final(self).panic_view() == Some(decode_utf8(payload@)),
    {
        match route(namespace, operation) {
            None => Err(HostCallError::UnsupportedHostCall),
            Some(HostOp::Panic) => {
                self.panic = Some(utf8_lossy(payload));
                done()
            },
            Some(HostOp::Now) => Ok(HostReply::CurrentTime),
            Some(HostOp::DbGet) => match decode_key_pair(payload) {
                Some((t, k)) => {
                    let v = self.store.get(t.as_str(), k.as_str());
                    encoded(encode_lookup(&v))
                },
                None => Err(HostCallError::InvalidPayload),
            },
            Some(HostOp::DbSet) => match decode_set_args(payload) {
                Some((t, k, v)) => {
                    self.store.set(t, k, v);
                    done()
                },
                None => Err(HostCallError::InvalidPayload),
            },
            Some(HostOp::DbDel) => match decode_key_pair(payload) {
                Some((t, k)) => {
                    self.store.del(t.as_str(), k.as_str());
                    done()
                },
                None => Err(HostCallError::InvalidPayload),
            },
            Some(HostOp::DbGetPrefix) => match decode_key_pair(payload) {
                Some((t, p)) => {
                    let e = self.store.get_prefix(t.as_str(), p.as_str());
                    encoded(encode_entries(&e))
                },
                None => Err(HostCallError::InvalidPayload),
            },
            Some(HostOp::DbSetMany) => match decode_set_many_args(payload) {
                Some((t, items)) => {
                    self.store.set_many(t, items);
                    done()
                },
                None => Err(HostCallError::InvalidPayload),
            },
            Some(HostOp::DbDelPrefix) => match decode_key_pair(payload) {
                Some((t, p)) => {
                    let n = self.store.del_prefix(t.as_str(), p.as_str());
                    encoded(encode_count(n))
                },
                None => Err(HostCallError::InvalidPayload),
            },
        }
    }
}

/// Dispatch is total: a (namespace, operation) pair outside the table is
/// refused as unsupported, and neither the panic message nor the store changes.
pub proof fn law_unknown_call_refused(
    panic: Option<Seq<char>>,
    store: Seq<EntryView>,
    ns: Seq<char>,
    op: Seq<char>,
    payload: Seq<u8>,
)
    requires
        host_op(ns, op) is None,
    ensures
        call_model(panic, store, ns, op, payload) == (
            panic,
            store,
            Err::<ReplyView, HostCallError>(HostCallError::UnsupportedHostCall),
        ),
{
}

/// Absence is no failure: `db.get` of a missing key succeeds, answers with
/// the encoded "no value", and leaves the store as it was.
pub proof fn law_missing_key_is_no_error(
    panic: Option<Seq<char>>,
    store: Seq<EntryView>,
    payload: Seq<u8>,
    t: Seq<char>,
    k: Seq<char>,
)
    requires
        key_pair_of_bytes(payload) == Some((t, k)),
        lookup(store, t, k) is None,
    ensures
        call_model(panic, store, "db"@, "get"@, payload) == (
            panic,
            store,
            Ok::<ReplyView, HostCallError>(ReplyView::Bytes(lookup_bytes(None))),
        ),
{
    assert(host_op("db"@, "get"@) == Some(HostOp::DbGet)) by {
        reveal_strlit("db");
        reveal_strlit("get");
        reveal_strlit("internals");
        reveal_strlit("datetime");
        assert("db"@.len() == 2);
        assert("internals"@.len() == 9);
        assert("datetime"@.len() == 8);
        assert("db"@ != "internals"@);
        assert("db"@ != "datetime"@);
    }
}

} // verus!
