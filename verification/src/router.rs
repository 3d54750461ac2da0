//! The router and the uniform request handler: path dispatch for the three
//! resource kinds, the wire-level upload cutoff on file writes, and the
//! mapping from every outcome to its HTTP status code.

use vstd::prelude::*;

use crate::codec::{bytes_eq, clone_bytes};
use crate::config::{inflated_limit, spec_inflated_limit, Config, ConfigView};
use crate::pool::ConnPool;
use crate::store::ResourceStore;
use crate::Kind;

verus! {

/// The request methods the service routes.
#[derive(Clone, Copy, PartialEq, Eq, Structural, Debug)]
pub enum Method {
    Get,
    Put,
    Delete,
}

/// What a request path addresses.
pub enum Target {
    /// `/config`: the active configuration, read-only.
    ConfigTarget,
    /// `/f`, `/l` or `/t`: every record of one kind.
    ListTarget(Kind),
    /// `/f/{id}`, `/l/{id}` or `/t/{id}`: one record.
    ItemTarget(Kind, Vec<u8>),
    /// Anything else: no route is registered for it.
    UnknownTarget,
}

/// The model of a routing decision.
pub ghost enum TargetView {
    ConfigV,
    ListV(Kind),
    ItemV(Kind, Seq<u8>),
    UnknownV,
}

impl View for Target {
    type V = TargetView;

    open spec fn view(&self) -> TargetView {
        match self {
            Target::ConfigTarget => TargetView::ConfigV,
            Target::ListTarget(k) => TargetView::ListV(*k),
            Target::ItemTarget(k, id) => TargetView::ItemV(*k, id@),
            Target::UnknownTarget => TargetView::UnknownV,
        }
    }
}

/// The `/config` path.
pub open spec fn config_path() -> Seq<u8> {
    seq![47u8, 99u8, 111u8, 110u8, 102u8, 105u8, 103u8]
}

/// The kind a path prefix letter addresses: `f`, `l` or `t`.
pub open spec fn path_kind(b: u8) -> Option<Kind> {
    if b == 102 {
        Some(Kind::File)
    } else if b == 108 {
        Some(Kind::Link)
    } else if b == 116 {
        Some(Kind::Text)
    } else {
        None
    }
}

/// The routing table: which target a path addresses. An item identifier is a
/// single nonempty path segment.
pub open spec fn spec_route(p: Seq<u8>) -> TargetView {
    if p == config_path() {
        TargetView::ConfigV
    } else if p.len() == 2 && p[0] == 47 && path_kind(p[1]) is Some {
        TargetView::ListV(path_kind(p[1])->0)
    } else if p.len() >= 4 && p[0] == 47 && path_kind(p[1]) is Some && p[2] == 47 && (forall|
        i: int,
    | 3 <= i < p.len() ==> p[i] != 47) {
        TargetView::ItemV(path_kind(p[1])->0, p.skip(3))
    } else {
        TargetView::UnknownV
    }
}

fn config_path_bytes() -> (r: Vec<u8>)
    ensures
        r@ == config_path(),
{
    let mut v: Vec<u8> = Vec::new();
    v.push(47);
    v.push(99);
    v.push(111);
    v.push(110);
    v.push(102);
    v.push(105);
    v.push(103);
    proof {
        assert(v@ =~= config_path());
    }
    v
}

/// Resolves a request path against the routing table.
pub fn route(path: &Vec<u8>) -> (r: Target)
    ensures
        r@ == spec_route(path@),
{
    let cp = config_path_bytes();
    if bytes_eq(path, &cp) {
        return Target::ConfigTarget;
    }
    let n = path.len();
    if n < 2 || path[0] != 47 {
        return Target::UnknownTarget;
    }
    let kb = path[1];
    let kind = if kb == 102 {
        Kind::File
    } else if kb == 108 {
        Kind::Link
    } else if kb == 116 {
        Kind::Text
    } else {
        return Target::UnknownTarget;
    };
    if n == 2 {
        return Target::ListTarget(kind);
    }
    if path[2] != 47 || n == 3 {
        return Target::UnknownTarget;
    }
    let mut id: Vec<u8> = Vec::new();
    let mut i: usize = 3;
    while i < n
        invariant
            3 <= i <= n == path@.len(),
            id@ == path@.subrange(3, i as int),
            forall|j: int| 3 <= j < i ==> path@[j] != 47,
        decreases n - i,
    {
        if path[i] == 47 {
            return Target::UnknownTarget;
        }
        id.push(path[i]);
        proof {
            assert(path@.subrange(3, i + 1) =~= path@.subrange(3, i as int).push(path@[i as int]));
        }
        i += 1;
    }
    proof {
        assert(id@ =~= path@.skip(3));
    }
    Target::ItemTarget(kind, id)
}

/// Every way a handled request can end.
pub enum Reply {
    /// The active configuration, for `GET /config`.
    ConfigReply(Config),
    /// The identifiers of one kind's records, for `GET` on a kind.
    ListReply(Vec<Vec<u8>>),
    /// The payload of one record.
    PayloadReply(Vec<u8>),
    /// A write created a record under a fresh identifier.
    CreatedReply,
    /// A write replaced the record that held the identifier.
    ReplacedReply,
    /// A delete removed the record.
    DeletedReply,
    /// No route, or no record under the identifier.
    NotFoundReply,
    /// A file write whose body exceeds the wire-level cutoff.
    TooLargeReply,
    /// A write whose body could not be decoded into a payload.
    MalformedReply,
    /// A storage backend failure, surfaced by the embedding, never by the
    /// in-memory store.
    FailedReply,
}

/// The HTTP status code of a reply.
pub open spec fn spec_status(r: Reply) -> u16 {
    match r {
        Reply::ConfigReply(_) => 200,
        Reply::ListReply(_) => 200,
        Reply::PayloadReply(_) => 200,
        Reply::CreatedReply => 201,
        Reply::ReplacedReply => 200,
        Reply::DeletedReply => 200,
        Reply::NotFoundReply => 404,
        Reply::TooLargeReply => 413,
        Reply::MalformedReply => 400,
        Reply::FailedReply => 500,
    }
}

/// Converts an outcome into its HTTP status code; request errors stay scoped
/// to their request and never become anything but a status.
pub fn status_of(r: &Reply) -> (s: u16)
    ensures
        s == spec_status(*r),
{
    match r {
        Reply::ConfigReply(_) => 200,
        Reply::ListReply(_) => 200,
        Reply::PayloadReply(_) => 200,
        Reply::CreatedReply => 201,
        Reply::ReplacedReply => 200,
        Reply::DeletedReply => 200,
        Reply::NotFoundReply => 404,
        Reply::TooLargeReply => 413,
        Reply::MalformedReply => 400,
        Reply::FailedReply => 500,
    }
}

/// A correct listing of `m`'s records of one kind: exactly the identifiers
/// present, each once.
pub open spec fn listing_ok(
    m: Map<(Kind, Seq<u8>), Seq<u8>>,
    kind: Kind,
    ids: Seq<Vec<u8>>,
) -> bool {
    &&& forall|j: int| 0 <= j < ids.len() ==> m.contains_key((kind, #[trigger] ids[j]@))
    &&& forall|id: Seq<u8>|
        #[trigger] m.contains_key((kind, id)) ==> exists|j: int|
            0 <= j < ids.len() && #[trigger] ids[j]@ == id
    &&& forall|a: int, b: int| 0 <= a < b < ids.len() ==> ids[a]@ != ids[b]@
}

/// The view of an optional decoded payload.
pub open spec fn payload_view(p: Option<Vec<u8>>) -> Option<Seq<u8>> {
    match p {
        Some(v) => Some(v@),
        None => None,
    }
}

/// The full request contract: how one dispatched request relates the store
/// before (`pre`) and after (`post`), the configuration, and the reply.
pub open spec fn handle_spec(
    pre: Map<(Kind, Seq<u8>), Seq<u8>>,
    cfg: ConfigView,
    method: Method,
    path: Seq<u8>,
    raw_len: u64,
    payload: Option<Seq<u8>>,
    post: Map<(Kind, Seq<u8>), Seq<u8>>,
    r: Reply,
) -> bool {
    match spec_route(path) {
        TargetView::ConfigV => if method == Method::Get {
            post == pre && (r matches Reply::ConfigReply(c) && c@ == cfg)
        } else {
            post == pre && r is NotFoundReply
        },
        TargetView::ListV(kind) => if method == Method::Get {
            post == pre && (r matches Reply::ListReply(ids) && listing_ok(pre, kind, ids@))
        } else {
            post == pre && r is NotFoundReply
        },
        TargetView::ItemV(kind, id) => match method {
            Method::Get => post == pre && if pre.contains_key((kind, id)) {
                r matches Reply::PayloadReply(p) && p@ == pre[(kind, id)]
            } else {
                r is NotFoundReply
            },
            Method::Put => if kind == Kind::File && raw_len > spec_inflated_limit(
                cfg.max_filesize,
            ) {
                // Oversized file bodies are cut off on the wire: the store is
                // left exactly as it was.
                post == pre && r is TooLargeReply
            } else {
                match payload {
                    None => post == pre && r is MalformedReply,
                    Some(p) => post == pre.insert((kind, id), p) && if pre.contains_key(
                        (kind, id),
                    ) {
                        r is ReplacedReply
                    } else {
                        r is CreatedReply
                    },
                }
            },
            Method::Delete => if pre.contains_key((kind, id)) {
                post == pre.remove((kind, id)) && r is DeletedReply
            } else {
                post == pre && r is NotFoundReply
            },
        },
        TargetView::UnknownV => post == pre && r is NotFoundReply,
    }
}

impl Config {
    /// A copy of the configuration, handed to each request context.
    pub fn duplicate(&self) -> (r: Config)
        ensures
            r@ == self@,
    {
        Config {
            database_url: clone_bytes(&self.database_url),
            port: self.port,
            pool_size: self.pool_size,
            max_filesize: self.max_filesize,
        }
    }
}

/// Dispatches one request against the store: the uniform CRUD contract,
/// identical for the three kinds, with the inflated size cutoff applied to
/// file writes only.
pub fn handle(
    store: &mut ResourceStore,
    config: &Config,
    method: Method,
    path: &Vec<u8>,
    raw_len: u64,
    payload: Option<Vec<u8>>,
) -> (r: Reply)
    requires
        old(store).wf(),
    ensures
        final(store).wf(),
        handle_spec(
            old(store)@,
            config@,
            method,
            path@,
            raw_len,
            payload_view(payload),
            final(store)@,
            r,
        ),
{
    let target = route(path);
    match target {
        Target::ConfigTarget => {
            if method == Method::Get {
                Reply::ConfigReply(config.duplicate())
            } else {
                Reply::NotFoundReply
            }
        },
        Target::ListTarget(kind) => {
            if method == Method::Get {
                Reply::ListReply(store.list(kind))
            } else {
                Reply::NotFoundReply
            }
        },
        Target::ItemTarget(kind, id) => {
            match method {
                Method::Get => {
                    match store.get_one(kind, &id) {
                        Some(p) => Reply::PayloadReply(p),
                        None => Reply::NotFoundReply,
                    }
                },
                Method::Put => {
                    if kind == Kind::File && raw_len > inflated_limit(config.max_filesize) {
                        return Reply::TooLargeReply;
                    }
                    match payload {
                        None => Reply::MalformedReply,
                        Some(p) => {
                            let created = store.put(kind, id, p);
                            if created {
                                Reply::CreatedReply
                            } else {
                                Reply::ReplacedReply
                            }
                        },
                    }
                },
                Method::Delete => {
                    let found = store.delete(kind, &id);
                    if found {
                        Reply::DeletedReply
                    } else {
                        proof {
                            assert(old(store)@.remove((kind, id@)) =~= old(store)@);
                        }
                        Reply::NotFoundReply
                    }
                },
            }
        },
        Target::UnknownTarget => Reply::NotFoundReply,
    }
}

/// One full request turn against the shared pool: borrow a connection,
/// dispatch, and return the connection — exactly once, on every path. The
/// pool ends with the very slots it began with, so no request can leak or
/// double-free a connection; while the request ran, one more connection was
/// checked out, never more than the configured size. Returns `None`, leaving
/// store and pool untouched, only when every connection is already checked
/// out and the caller must wait.
pub fn serve_request(
    pool: &mut ConnPool,
    store: &mut ResourceStore,
    config: &Config,
    method: Method,
    path: &Vec<u8>,
    raw_len: u64,
    payload: Option<Vec<u8>>,
) -> (r: Option<Reply>)
    requires
        old(pool).wf(),
        old(store).wf(),
    ensures
        final(pool).wf(),
        final(store).wf(),
        final(pool).spec_size() == old(pool).spec_size(),
        match r {
            Some(reply) => {
                &&& final(pool).idle_slots() == old(pool).idle_slots()
                &&& handle_spec(
                    old(store)@,
                    config@,
                    method,
                    path@,
                    raw_len,
                    payload_view(payload),
                    final(store)@,
                    reply,
                )
            },
            None => {
                &&& old(pool).checked_out() == old(pool).spec_size()
                &&& final(pool).idle_slots() == old(pool).idle_slots()
                &&& final(store)@ == old(store)@
            },
        },
{
    let slot = match pool.acquire() {
        Some(slot) => slot,
        None => {
            return None;
        },
    };
    let reply = handle(store, config, method, path, raw_len, payload);
    pool.release(slot);
    proof {
        assert(old(pool).idle_slots().drop_last().push(slot) =~= old(pool).idle_slots());
    }
    Some(reply)
}

} // verus!
