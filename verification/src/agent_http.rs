//! What the agent routes decide: the project a request narrows its scope
//! to, the digest its idempotency key is stored under, and which events an
//! event stream replays and then passes on live.

use vstd::prelude::*;
use crate::agent::{owner_scope, ConversationEvent};
use crate::context::{project_header_rule, HeaderField};
use crate::digest::{sha256_hex_str, sha256_hex_text, utf8};
use crate::error::{AppError, ErrorV};
use crate::ids::{scope_contains, uuid_parse, uuid_value, ConversationId, ProjectId, TenantScope};
use crate::rules::invalid;
use crate::text::{parse_u64, split, split_once, split_once_spec, split_pieces, str_eq, trim, trimmed, unsigned_decimal};

verus! {

/// The `project_id` of a query string: that of the first `key=value` part
/// whose key is `project_id` and whose value is a UUID.
pub open spec fn query_project(parts: Seq<Seq<char>>) -> Option<u128>
    decreases parts.len(),
{
    if parts.len() == 0 {
        None
    } else {
        match split_once_spec(parts[0], '=') {
            Some((k, v)) => if k == "project_id"@ && uuid_parse(v) is Some {
                uuid_parse(v)
            } else {
                query_project(parts.drop_first())
            },
            None => query_project(parts.drop_first()),
        }
    }
}

/// The scope an agent request works in: the session scope narrowed to the
/// project of the `x-project-id` header, else of the query; unchanged when
/// neither names one.  A malformed header is refused.
pub open spec fn narrowed_rule(base: TenantScope, header: HeaderField, query: Option<Seq<char>>) -> Result<
    TenantScope,
    ErrorV,
> {
    match project_header_rule(header) {
        Err(e) => Err(e),
        Ok(h) => {
            let p = match h {
                Some(x) => Some(x),
                None => match query {
                    Some(q) => query_project(split_pieces(q, '&')),
                    None => None,
                },
            };
            match p {
                Some(x) => Ok(TenantScope { project_id: Some(ProjectId(x)), ..base }),
                None => Ok(base),
            }
        },
    }
}

fn project_in_query(q: &str) -> (r: Option<u128>)
    ensures
        r == query_project(split_pieces(q@, '&')),
{
    let parts = split(q, '&');
    let ghost ps = split_pieces(q@, '&');
    let mut i: usize = 0;
    assert(ps.skip(0) =~= ps);
    proof {
        reveal_strlit("project_id");
    }
    while i < parts.len()
        invariant
            i <= parts.len(),
            ps == parts@.map_values(|p: String| p@),
            ps == split_pieces(q@, '&'),
            query_project(ps) == query_project(ps.skip(i as int)),
        decreases parts.len() - i,
    {
        proof {
            assert(ps.skip(i as int)[0] == parts@[i as int]@);
            assert(ps.skip(i as int).drop_first() =~= ps.skip(i + 1));
        }
        match split_once(parts[i].as_str(), '=') {
            Some((k, v)) => {
                if str_eq(k, "project_id") {
                    match uuid_value(v) {
                        Some(x) => {
                            return Some(x);
                        },
                        None => {},
                    }
                }
            },
            None => {},
        }
        i += 1;
    }
    assert(ps.skip(parts.len() as int) =~= Seq::<Seq<char>>::empty());
    None
}

pub fn narrowed_scope(base: &TenantScope, header: &HeaderField, query: Option<&str>) -> (r: Result<TenantScope, AppError>)
    ensures
        match r {
            Ok(s) => narrowed_rule(
                *base,
                *header,
                match query {
                    Some(q) => Some(q@),
                    None => None,
                },
            ) == Ok::<TenantScope, ErrorV>(s),
            Err(e) => narrowed_rule(
                *base,
                *header,
                match query {
                    Some(q) => Some(q@),
                    None => None,
                },
            ) == Err::<TenantScope, ErrorV>(e@),
        },
{
    let from_header = match header {
        HeaderField::Missing => None,
        HeaderField::Unreadable => return Err(AppError::invalid_request("invalid x-project-id header")),
        HeaderField::Text(v) => match uuid_value(v.as_str()) {
            Some(x) => Some(x),
            None => return Err(AppError::invalid_request("invalid x-project-id header")),
        },
    };
    let p = match from_header {
        Some(x) => Some(x),
        None => match query {
            Some(q) => project_in_query(q),
            None => None,
        },
    };
    match p {
        Some(x) => Ok(TenantScope { operator_id: base.operator_id, tenant_id: base.tenant_id, project_id: Some(ProjectId(x)) }),
        None => Ok(*base),
    }
}

/// How a submission's idempotency key is stored: the SHA-256 of the
/// trimmed header text, in lower-case hex.
pub open spec fn key_digest_rule(header: HeaderField) -> Result<Seq<char>, ErrorV> {
    match header {
        HeaderField::Missing => Err(invalid("missing Idempotency-Key header"@)),
        HeaderField::Unreadable => Err(invalid("invalid Idempotency-Key header"@)),
        HeaderField::Text(v) => Ok(sha256_hex_text(utf8(trimmed(v@)))),
    }
}

pub fn idempotency_key_hash(header: &HeaderField) -> (r: Result<String, AppError>)
    ensures
        match r {
            Ok(h) => key_digest_rule(*header) == Ok::<Seq<char>, ErrorV>(h@),
            Err(e) => key_digest_rule(*header) == Err::<Seq<char>, ErrorV>(e@),
        },
{
    match header {
        HeaderField::Missing => Err(AppError::invalid_request("missing Idempotency-Key header")),
        HeaderField::Unreadable => Err(AppError::invalid_request("invalid Idempotency-Key header")),
        HeaderField::Text(v) => Ok(sha256_hex_str(trim(v.as_str()))),
    }
}

/// Where an event stream starts: after the `after` query value, else after
/// the `Last-Event-ID` a reconnecting client sends, else from the start.
pub open spec fn cursor_rule(after: Option<u64>, last_event_id: HeaderField) -> u64 {
    match after {
        Some(a) => a,
        None => match last_event_id {
            HeaderField::Text(v) => match unsigned_decimal(v@) {
                Some(n) => if n <= u64::MAX {
                    n as u64
                } else {
                    0
                },
                None => 0,
            },
            _ => 0,
        },
    }
}

pub fn events_cursor(after: Option<u64>, last_event_id: &HeaderField) -> (c: u64)
    ensures
        c == cursor_rule(after, *last_event_id),
{
    match after {
        Some(a) => a,
        None => match last_event_id {
            HeaderField::Text(v) => match parse_u64(v.as_str()) {
                Some(n) => n,
                None => 0,
            },
            _ => 0,
        },
    }
}

/// The sequence a live tail continues after: that of the last replayed
/// event, or the cursor when nothing was replayed.
pub fn replayed_through(replay: &Vec<ConversationEvent>, cursor: u64) -> (last: u64)
    ensures
        last == (if replay@.len() == 0 {
            cursor
        } else {
            replay@.last().sequence
        }),
{
    if replay.len() == 0 {
        cursor
    } else {
        replay[replay.len() - 1].sequence
    }
}

/// Whether a live event belongs on a stream: same conversation, inside the
/// stream's scope, and not already replayed.
pub fn passes_live(event: &ConversationEvent, conversation_id: ConversationId, scope: &TenantScope, replayed: u64) -> (b:
    bool)
    ensures
        b == (event.conversation_id == conversation_id && scope_contains(
            *scope,
            owner_scope(event.operator_id, event.tenant_id, event.project_id),
        ) && event.sequence > replayed),
{
    event.conversation_id == conversation_id && scope.contains(&event.scope()) && event.sequence > replayed
}

} // verus!
