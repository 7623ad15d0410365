//! Path patterns and the dispatcher.
//!
//! A handler registers a path pattern: a literal path, or a prefix whose
//! last segment is the single wildcard token `*`, which matches that
//! segment and everything after it.  Matching is segment-level only —
//! no mid-path wildcards and no character-level globbing.  Patterns are
//! tried in registration order and the first match wins; a request that
//! no pattern matches is answered with the canonical "not found" reply.

use vstd::prelude::*;
use vstd::string::StrSliceExecFns;
use vstd::string::StringExecFns;

use crate::error_replies::{carries_response, is_response_404, reply_request_404};
use crate::http_model::{HttpRequest, HttpResponse};
use crate::registry::{HttpRequestReceivedEvent, HttpRequestReplyEvent};

verus! {

/// The length of the leading run of characters before the first `/`.
pub open spec fn seg_break(s: Seq<char>) -> int
    decreases s.len(),
{
    if s.len() == 0 {
        0
    } else if s[0] == '/' {
        0
    } else {
        1 + seg_break(s.skip(1))
    }
}

proof fn lemma_seg_break(s: Seq<char>)
    ensures
        0 <= seg_break(s) <= s.len(),
        forall|j: int| 0 <= j < seg_break(s) ==> s[j] != '/',
        seg_break(s) < s.len() ==> s[seg_break(s)] == '/',
    decreases s.len(),
{
    if s.len() != 0 && s[0] != '/' {
        lemma_seg_break(s.skip(1));
        assert forall|j: int| 0 <= j < seg_break(s) implies s[j] != '/' by {
            if j > 0 {
                assert(s.skip(1)[j - 1] == s[j]);
            }
        }
    }
}

/// Where a run of non-`/` characters is known to end, `seg_break` finds
/// exactly that end.
proof fn lemma_seg_break_is(s: Seq<char>, k: int)
    requires
        0 <= k <= s.len(),
        forall|j: int| 0 <= j < k ==> s[j] != '/',
        k < s.len() ==> s[k] == '/',
    ensures
        seg_break(s) == k,
    decreases k,
{
    if k > 0 {
        assert(s[0] != '/');
        assert forall|j: int| 0 <= j < k - 1 implies s.skip(1)[j] != '/' by {
            assert(s.skip(1)[j] == s[j + 1]);
        }
        assert(k - 1 < s.skip(1).len() ==> s.skip(1)[k - 1] == s[k]);
        lemma_seg_break_is(s.skip(1), k - 1);
    }
}

/// The path's segments: maximal runs of non-`/` characters, in order.
/// Empty segments (leading, trailing or doubled separators) are dropped,
/// as a path iterator drops them.
pub open spec fn split_segs(s: Seq<char>) -> Seq<Seq<char>>
    decreases s.len(),
    via split_segs_decreases
{
    if s.len() == 0 {
        Seq::empty()
    } else if s[0] == '/' {
        split_segs(s.skip(1))
    } else {
        seq![s.take(seg_break(s))] + split_segs(s.skip(seg_break(s)))
    }
}

#[via_fn]
proof fn split_segs_decreases(s: Seq<char>) {
    if s.len() != 0 && s[0] != '/' {
        lemma_seg_break(s);
    }
}

/// Skipping a separator character does not change the segments.
proof fn lemma_split_slash(s: Seq<char>, a: int)
    requires
        0 <= a < s.len(),
        s[a] == '/',
    ensures
        split_segs(s.skip(a)) == split_segs(s.skip(a + 1)),
{
    let t = s.skip(a);
    assert(t[0] == '/');
    assert(t.skip(1) =~= s.skip(a + 1));
}

/// A full run of non-`/` characters from `a` to `b` is the next segment
/// of the tail that starts at `a`.
proof fn lemma_split_step(s: Seq<char>, a: int, b: int)
    requires
        0 <= a < b <= s.len(),
        forall|j: int| a <= j < b ==> s[j] != '/',
        b < s.len() ==> s[b] == '/',
    ensures
        split_segs(s.skip(a)) == seq![s.subrange(a, b)] + split_segs(s.skip(b)),
{
    let t = s.skip(a);
    assert forall|j: int| 0 <= j < b - a implies t[j] != '/' by {
        assert(t[j] == s[a + j]);
    }
    assert(b - a < t.len() ==> t[b - a] == s[b]);
    lemma_seg_break_is(t, b - a);
    assert(t[0] != '/');
    assert(t.take(b - a) =~= s.subrange(a, b));
    assert(t.skip(b - a) =~= s.skip(b));
}

/// The wildcard token: a segment that is the single character `*`.
pub open spec fn star_seg() -> Seq<char> {
    seq!['*']
}

/// Whether the checked segments match the pattern segments: the pattern
/// must not be longer than the checked path; segments are compared in
/// order; a wildcard pattern segment matches that segment and everything
/// after it; with no wildcard the lengths must agree exactly.
pub open spec fn segs_match(check: Seq<Seq<char>>, pattern: Seq<Seq<char>>) -> bool
    decreases pattern.len(),
{
    if pattern.len() > check.len() {
        false
    } else if pattern.len() == 0 {
        check.len() == 0
    } else if pattern[0] == star_seg() {
        true
    } else if check[0] != pattern[0] {
        false
    } else {
        segs_match(check.skip(1), pattern.skip(1))
    }
}

/// Whether the path `check` matches the pattern `pattern`, segment-wise.
pub open spec fn path_matches(check: Seq<char>, pattern: Seq<char>) -> bool {
    segs_match(split_segs(check), split_segs(pattern))
}

/// Splits a path into its non-empty segments.
pub fn split_path(s: &str) -> (segs: Vec<String>)
    ensures
        segs.deep_view() == split_segs(s@),
{
    let n = s.unicode_len();
    let mut segs: Vec<String> = Vec::new();
    let mut seg_start: usize = 0;
    let mut i: usize = 0;
    proof {
        assert(s@.skip(0) =~= s@);
    }
    while i < n
        invariant
            seg_start <= i <= n,
            n == s@.len(),
            forall|j: int| seg_start <= j < i ==> s@[j] != '/',
            split_segs(s@) == segs.deep_view() + split_segs(s@.skip(seg_start as int)),
        decreases n - i,
    {
        let c = s.get_char(i);
        if c == '/' {
            if i > seg_start {
                let seg = s.substring_char(seg_start, i).to_owned();
                proof {
                    lemma_split_step(s@, seg_start as int, i as int);
                    lemma_split_slash(s@, i as int);
                }
                segs.push(seg);
                proof {
                    assert(segs.deep_view() =~= old_segs_dv(segs) + seq![seg@]);
                }
            } else {
                proof {
                    lemma_split_slash(s@, i as int);
                }
            }
            seg_start = i + 1;
        }
        i = i + 1;
    }
    if seg_start < n {
        let seg = s.substring_char(seg_start, n).to_owned();
        proof {
            lemma_split_step(s@, seg_start as int, n as int);
            assert(s@.skip(n as int) =~= Seq::<char>::empty());
        }
        segs.push(seg);
        proof {
            assert(segs.deep_view() =~= old_segs_dv(segs) + seq![seg@]);
        }
    } else {
        proof {
            assert(s@.skip(seg_start as int) =~= Seq::<char>::empty());
        }
    }
    segs
}

/// The deep view of a vector of segments with its last element removed;
/// names the state just before a push for the proofs above.
spec fn old_segs_dv(segs: Vec<String>) -> Seq<Seq<char>> {
    segs.deep_view().take(segs.deep_view().len() - 1)
}

/// Whether the string holds exactly the wildcard token.
fn is_star(s: &String) -> (r: bool)
    ensures
        r == (s@ == star_seg()),
{
    if s.as_str().unicode_len() == 1 {
        let c = s.as_str().get_char(0);
        proof {
            if c == '*' {
                assert(s@ =~= star_seg());
            }
        }
        c == '*'
    } else {
        false
    }
}

/// Checks if the given input path matches the pattern, with wildcard
/// handling: only a single `*` as the final pattern segment is special,
/// matching that segment and everything after it.
pub fn check_path_matches(check: &str, pattern: &str) -> (r: bool)
    ensures
        r == path_matches(check@, pattern@),
{
    let cs = split_path(check);
    let ps = split_path(pattern);
    let cdv = Ghost(cs.deep_view());
    let pdv = Ghost(ps.deep_view());
    if cs.len() < ps.len() {
        return false;
    }
    proof {
        assert(cdv@.skip(0) =~= cdv@);
        assert(pdv@.skip(0) =~= pdv@);
    }
    let mut i: usize = 0;
    while i < ps.len()
        invariant
            i <= ps.len() <= cs.len(),
            cdv@ == cs.deep_view(),
            pdv@ == ps.deep_view(),
            cdv@.len() == cs.len(),
            pdv@.len() == ps.len(),
            path_matches(check@, pattern@) == segs_match(
                cdv@.skip(i as int),
                pdv@.skip(i as int),
            ),
        decreases ps.len() - i,
    {
        if is_star(&ps[i]) {
            proof {
                assert(pdv@.skip(i as int)[0] == pdv@[i as int]);
            }
            return true;
        }
        if !vecs_index_eq(&cs, &ps, i) {
            proof {
                assert(cdv@.skip(i as int)[0] == cdv@[i as int]);
                assert(pdv@.skip(i as int)[0] == pdv@[i as int]);
            }
            return false;
        }
        proof {
            assert(cdv@.skip(i as int)[0] == cdv@[i as int]);
            assert(pdv@.skip(i as int)[0] == pdv@[i as int]);
            assert(cdv@.skip(i as int).skip(1) =~= cdv@.skip(i + 1));
            assert(pdv@.skip(i as int).skip(1) =~= pdv@.skip(i + 1));
        }
        i = i + 1;
    }
    proof {
        assert(pdv@.skip(i as int) =~= Seq::<Seq<char>>::empty());
        assert(cdv@.skip(i as int).len() == cs.len() - i);
    }
    cs.len() == ps.len()
}

/// Whether the two vectors hold equal strings at the given index.
fn vecs_index_eq(a: &Vec<String>, b: &Vec<String>, i: usize) -> (r: bool)
    requires
        i < a.len(),
        i < b.len(),
    ensures
        r == (a.deep_view()[i as int] == b.deep_view()[i as int]),
{
    a[i] == b[i]
}

/// The largest index holding a `.`, or `-1` if there is none.
pub open spec fn last_dot(name: Seq<char>) -> int
    decreases name.len(),
{
    if name.len() == 0 {
        -1
    } else if name[name.len() - 1] == '.' {
        name.len() - 1
    } else {
        last_dot(name.take(name.len() - 1))
    }
}

proof fn lemma_last_dot(name: Seq<char>, k: int)
    requires
        -1 <= k < name.len(),
        k >= 0 ==> name[k] == '.',
        forall|l: int| k < l < name.len() ==> name[l] != '.',
    ensures
        last_dot(name) == k,
    decreases name.len(),
{
    if name.len() > 0 && name[name.len() - 1] != '.' {
        let front = name.take(name.len() - 1);
        assert forall|l: int| k < l < front.len() implies front[l] != '.' by {
            assert(front[l] == name[l]);
        }
        lemma_last_dot(front, k);
    }
}

/// The file extension of a path: the part of its final segment after
/// the last `.`, or nothing when that segment has no `.` or starts with
/// its only `.`.
pub open spec fn extension_of(path: Seq<char>) -> Option<Seq<char>> {
    let segs = split_segs(path);
    if segs.len() == 0 {
        None
    } else {
        let name = segs.last();
        let d = last_dot(name);
        if d <= 0 {
            None
        } else {
            Some(name.skip(d + 1))
        }
    }
}

/// A path specifier for a handler, which when combined with a mailbox
/// allows standard pathed requests to be routed to it.
pub struct HttpHandlerPathSpec {
    path: String,
}

impl HttpHandlerPathSpec {
    /// The pattern's view, for contracts about a handler's registration.
    pub closed spec fn path_view(&self) -> Seq<char> {
        self.path@
    }

    /// The file extension of the registered path, if it has one.
    pub fn extension(&self) -> (r: Option<String>)
        ensures
            r is Some <==> extension_of(self.path_view()) is Some,
            r matches Some(e) ==> extension_of(self.path_view()) == Some(e@),
    {
        extension_of_path(self.path.as_str())
    }

    /// The registered path itself.
    pub fn path(&self) -> (r: &str)
        ensures
            r@ == self.path_view(),
    {
        self.path.as_str()
    }
}

/// Computes the file extension of a path string.
pub fn extension_of_path(path: &str) -> (r: Option<String>)
    ensures
        r is Some <==> extension_of(path@) is Some,
        r matches Some(e) ==> extension_of(path@) == Some(e@),
{
    let segs = split_path(path);
    if segs.len() == 0 {
        return None;
    }
    let name = &segs[segs.len() - 1];
    let ghost namev = name@;
    proof {
        assert(segs.deep_view()[segs.len() - 1] == namev);
        assert(split_segs(path@).last() == namev);
    }
    let n = name.as_str().unicode_len();
    let mut j: usize = n;
    while j > 0
        invariant
            j <= n,
            n == namev.len(),
            namev == name@,
            split_segs(path@).len() > 0,
            split_segs(path@).last() == namev,
            forall|l: int| j <= l < namev.len() ==> namev[l] != '.',
        decreases j,
    {
        let c = name.as_str().get_char(j - 1);
        if c == '.' {
            proof {
                lemma_last_dot(namev, j - 1);
            }
            if j - 1 == 0 {
                return None;
            }
            let ext = name.as_str().substring_char(j, n).to_owned();
            proof {
                assert(namev.subrange(j as int, n as int) =~= namev.skip(j as int));
            }
            return Some(ext);
        }
        j = j - 1;
    }
    proof {
        lemma_last_dot(namev, -1);
    }
    None
}

/// A mailbox for requests, pairing the session each request came from
/// with its decoded body.  The router is the only writer and the owning
/// handler the only reader.
pub struct HttpHandlerRequestMailbox {
    mailbox: Vec<(u64, HttpRequest)>,
}

impl HttpHandlerRequestMailbox {
    /// The pending messages, oldest first.
    pub closed spec fn view_msgs(&self) -> Seq<(u64, HttpRequest)> {
        self.mailbox@
    }

    /// An empty mailbox.
    pub fn new() -> (r: HttpHandlerRequestMailbox)
        ensures
            r.view_msgs() == Seq::<(u64, HttpRequest)>::empty(),
    {
        HttpHandlerRequestMailbox { mailbox: Vec::new() }
    }

    /// Takes the most recently pushed message, if any.
    pub fn read_message(&mut self) -> (r: Option<(u64, HttpRequest)>)
        ensures
            old(self).view_msgs().len() == 0 ==> r is None && final(self).view_msgs()
                == old(self).view_msgs(),
            old(self).view_msgs().len() > 0 ==> r == Some(old(self).view_msgs().last())
                && final(self).view_msgs() == old(self).view_msgs().drop_last(),
    {
        self.mailbox.pop()
    }

    /// Appends a message from the given session.
    pub fn push_message(&mut self, handler: u64, msg: HttpRequest)
        ensures
            final(self).view_msgs() == old(self).view_msgs().push((handler, msg)),
    {
        self.mailbox.push((handler, msg));
    }
}

/// A handler's registration: its path pattern together with the mailbox
/// its requests are routed into.
pub struct HttpHandlerBundle {
    pub path_spec: HttpHandlerPathSpec,
    pub mailbox: HttpHandlerRequestMailbox,
}

impl HttpHandlerBundle {
    /// Constructs a new handler bundle given the provided path pattern.
    pub fn new(path: String) -> (r: HttpHandlerBundle)
        ensures
            r.path_spec.path_view() == path@,
            r.mailbox.view_msgs() == Seq::<(u64, HttpRequest)>::empty(),
    {
        HttpHandlerBundle {
            path_spec: HttpHandlerPathSpec { path },
            mailbox: HttpHandlerRequestMailbox::new(),
        }
    }
}

/// The registered patterns, in registration order.
pub open spec fn pattern_views(hs: Seq<HttpHandlerBundle>) -> Seq<Seq<char>> {
    hs.map(|i: int, h: HttpHandlerBundle| h.path_spec.path_view())
}

/// The index of the first registered pattern that the path matches, or
/// `-1` when none does.
pub open spec fn first_match_idx(pats: Seq<Seq<char>>, path: Seq<char>) -> int
    decreases pats.len(),
{
    if pats.len() == 0 {
        -1
    } else if path_matches(path, pats[0]) {
        0
    } else {
        let r = first_match_idx(pats.skip(1), path);
        if r == -1 {
            -1
        } else {
            r + 1
        }
    }
}

/// Where a prefix is known not to match, `first_match_idx` finds
/// exactly the first matching pattern (or reports that none matches).
proof fn lemma_first_match_at(pats: Seq<Seq<char>>, path: Seq<char>, i: int)
    requires
        0 <= i <= pats.len(),
        forall|j: int| 0 <= j < i ==> !path_matches(path, pats[j]),
        i < pats.len() ==> path_matches(path, pats[i]),
    ensures
        i < pats.len() ==> first_match_idx(pats, path) == i,
        i == pats.len() ==> first_match_idx(pats, path) == -1,
    decreases i,
{
    if pats.len() > 0 && i > 0 {
        assert forall|j: int| 0 <= j < i - 1 implies !path_matches(path, pats.skip(1)[j]) by {
            assert(pats.skip(1)[j] == pats[j + 1]);
        }
        assert(i - 1 < pats.skip(1).len() ==> pats.skip(1)[i - 1] == pats[i]);
        lemma_first_match_at(pats.skip(1), path, i - 1);
    }
}

/// Routes one received request.  The request lands in the mailbox of
/// the first registered handler whose pattern matches its path, and in
/// no other; when no pattern matches, no mailbox changes and the
/// canonical "not found" reply event for the session is returned.
pub fn dispatch_request(handlers: &mut Vec<HttpHandlerBundle>, ev: HttpRequestReceivedEvent) -> (reply:
    Option<HttpRequestReplyEvent>)
    ensures
        ({
            let pats = pattern_views(old(handlers)@);
            let k = first_match_idx(pats, ev.body.path@);
            &&& final(handlers)@.len() == old(handlers)@.len()
            &&& forall|j: int|
                0 <= j < old(handlers)@.len() && j != k ==> final(handlers)@[j] == old(
                    handlers,
                )@[j]
            &&& k >= 0 ==> reply is None && final(handlers)@[k].path_spec == old(
                handlers,
            )@[k].path_spec && final(handlers)@[k].mailbox.view_msgs() == old(
                handlers,
            )@[k].mailbox.view_msgs().push((ev.ent, ev.body))
            &&& k == -1 ==> final(handlers)@ == old(handlers)@ && (reply matches Some(rev)
                && carries_response(rev, ev.ent, |resp: HttpResponse| is_response_404(resp)))
        }),
{
    let ghost pats = pattern_views(handlers@);
    let path = ev.body.path.clone();
    let mut i: usize = 0;
    while i < handlers.len()
        invariant
            i <= handlers@.len(),
            handlers@ == old(handlers)@,
            pats == pattern_views(handlers@),
            path@ == ev.body.path@,
            forall|j: int| 0 <= j < i ==> !path_matches(path@, pats[j]),
        decreases handlers@.len() - i,
    {
        proof {
            assert(pats[i as int] == handlers@[i as int].path_spec.path_view());
        }
        if check_path_matches(path.as_str(), handlers[i].path_spec.path()) {
            proof {
                lemma_first_match_at(pats, path@, i as int);
            }
            let ghost pre = handlers@;
            let mut h = handlers.remove(i);
            h.mailbox.push_message(ev.ent, ev.body);
            handlers.insert(i, h);
            proof {
                assert(handlers@ =~= pre.update(
                    i as int,
                    HttpHandlerBundle {
                        path_spec: pre[i as int].path_spec,
                        mailbox: handlers@[i as int].mailbox,
                    },
                ));
            }
            return None;
        }
        i = i + 1;
    }
    proof {
        lemma_first_match_at(pats, path@, i as int);
    }
    Some(reply_request_404(ev.ent))
}

/// The messages one dispatch pass routes into handler `k`'s mailbox:
/// the events whose path's first matching pattern is `k`, in order.
pub open spec fn routed_to(
    evs: Seq<HttpRequestReceivedEvent>,
    pats: Seq<Seq<char>>,
    k: int,
) -> Seq<(u64, HttpRequest)>
    decreases evs.len(),
{
    if evs.len() == 0 {
        Seq::empty()
    } else {
        routed_to(evs.drop_last(), pats, k) + (if first_match_idx(pats, evs.last().body.path@)
            == k {
            seq![(evs.last().ent, evs.last().body)]
        } else {
            Seq::empty()
        })
    }
}

/// The sessions whose request no pattern matches, in event order; each
/// gets the canonical "not found" reply.
pub open spec fn unrouted(evs: Seq<HttpRequestReceivedEvent>, pats: Seq<Seq<char>>) -> Seq<u64>
    decreases evs.len(),
{
    if evs.len() == 0 {
        Seq::empty()
    } else {
        unrouted(evs.drop_last(), pats) + (if first_match_idx(pats, evs.last().body.path@)
            == -1 {
            seq![evs.last().ent]
        } else {
            Seq::empty()
        })
    }
}

/// `first_match_idx` yields `-1` or an index into the patterns.
proof fn lemma_first_match_bounds(pats: Seq<Seq<char>>, path: Seq<char>)
    ensures
        first_match_idx(pats, path) == -1 || (0 <= first_match_idx(pats, path) < pats.len()),
    decreases pats.len(),
{
    if pats.len() > 0 {
        lemma_first_match_bounds(pats.skip(1), path);
    }
}

/// One more event extends each mailbox's routed messages by its pair
/// exactly when its path's first match is that mailbox's handler.
proof fn lemma_routed_snoc(
    evs: Seq<HttpRequestReceivedEvent>,
    ev: HttpRequestReceivedEvent,
    pats: Seq<Seq<char>>,
    k: int,
)
    ensures
        routed_to(evs.push(ev), pats, k) == routed_to(evs, pats, k) + (if first_match_idx(
            pats,
            ev.body.path@,
        ) == k {
            seq![(ev.ent, ev.body)]
        } else {
            Seq::empty()
        }),
{
    assert(evs.push(ev).drop_last() =~= evs);
    assert(evs.push(ev).last() == ev);
}

/// One more event extends the unmatched sessions by its session
/// exactly when its path matches no pattern.
proof fn lemma_unrouted_snoc(
    evs: Seq<HttpRequestReceivedEvent>,
    ev: HttpRequestReceivedEvent,
    pats: Seq<Seq<char>>,
)
    ensures
        unrouted(evs.push(ev), pats) == unrouted(evs, pats) + (if first_match_idx(
            pats,
            ev.body.path@,
        ) == -1 {
            seq![ev.ent]
        } else {
            Seq::empty()
        }),
{
    assert(evs.push(ev).drop_last() =~= evs);
    assert(evs.push(ev).last() == ev);
}

/// The number of messages one dispatch pass routes into the mailboxes
/// of the first `k` handlers, taken together.
pub open spec fn routed_count(evs: Seq<HttpRequestReceivedEvent>, pats: Seq<Seq<char>>, k: int) -> int
    decreases k,
{
    if k <= 0 {
        0
    } else {
        routed_count(evs, pats, k - 1) + routed_to(evs, pats, k - 1).len()
    }
}

/// An empty batch routes nothing anywhere.
proof fn lemma_routed_count_empty(pats: Seq<Seq<char>>, k: int)
    requires
        k >= 0,
    ensures
        routed_count(Seq::empty(), pats, k) == 0,
    decreases k,
{
    if k > 0 {
        lemma_routed_count_empty(pats, k - 1);
    }
}

/// One more event raises the count of messages routed into the first
/// `k` mailboxes by one exactly when its first match lies below `k`.
proof fn lemma_routed_count_snoc(
    evs: Seq<HttpRequestReceivedEvent>,
    ev: HttpRequestReceivedEvent,
    pats: Seq<Seq<char>>,
    k: int,
)
    requires
        k >= 0,
    ensures
        routed_count(evs.push(ev), pats, k) == routed_count(evs, pats, k) + (if 0
            <= first_match_idx(pats, ev.body.path@) < k {
            1int
        } else {
            0int
        }),
    decreases k,
{
    if k > 0 {
        lemma_routed_count_snoc(evs, ev, pats, k - 1);
        lemma_routed_snoc(evs, ev, pats, k - 1);
    }
}

/// Law: one dispatch pass hands every received request to exactly one
/// destination — the mailbox of its first matching handler, or the
/// "not found" reply when no pattern matches — never none and never
/// two.  Counted over a batch: the unmatched requests and the routed
/// messages together account for every event exactly once.
pub proof fn lemma_each_request_routed_once(
    evs: Seq<HttpRequestReceivedEvent>,
    pats: Seq<Seq<char>>,
)
    ensures
        unrouted(evs, pats).len() + routed_count(evs, pats, pats.len() as int) == evs.len(),
    decreases evs.len(),
{
    if evs.len() == 0 {
        lemma_routed_count_empty(pats, pats.len() as int);
        assert(evs =~= Seq::<HttpRequestReceivedEvent>::empty());
    } else {
        let front = evs.drop_last();
        let ev = evs.last();
        lemma_each_request_routed_once(front, pats);
        assert(front.push(ev) =~= evs);
        lemma_first_match_bounds(pats, ev.body.path@);
        lemma_unrouted_snoc(front, ev, pats);
        lemma_routed_count_snoc(front, ev, pats, pats.len() as int);
    }
}

/// One dispatch pass: routes every received request into the mailbox
/// of the first handler whose pattern matches its path, and returns a
/// "not found" reply event for every request that no pattern matches.
/// No handler's registration changes, and no mailbox receives anything
/// but its own matches.
pub fn http_request_sorter_system(
    handlers: &mut Vec<HttpHandlerBundle>,
    events: Vec<HttpRequestReceivedEvent>,
) -> (replies: Vec<HttpRequestReplyEvent>)
    ensures
        final(handlers)@.len() == old(handlers)@.len(),
        forall|k: int|
            0 <= k < old(handlers)@.len() ==> final(handlers)@[k].path_spec == old(
                handlers,
            )@[k].path_spec,
        forall|k: int|
            0 <= k < old(handlers)@.len() ==> final(handlers)@[k].mailbox.view_msgs() == old(
                handlers,
            )@[k].mailbox.view_msgs() + routed_to(
                events@,
                pattern_views(old(handlers)@),
                k,
            ),
        replies@.len() == unrouted(events@, pattern_views(old(handlers)@)).len(),
        forall|i: int|
            0 <= i < replies@.len() ==> carries_response(
                replies@[i],
                unrouted(events@, pattern_views(old(handlers)@))[i],
                |resp: HttpResponse| is_response_404(resp),
            ),
{
    let ghost pats = pattern_views(old(handlers)@);
    let ghost orig_evs = events@;
    let ghost orig_handlers = old(handlers)@;
    let mut events = events;
    let mut replies: Vec<HttpRequestReplyEvent> = Vec::new();
    let ghost mut i: int = 0;
    proof {
        assert(orig_evs.take(0) =~= Seq::<HttpRequestReceivedEvent>::empty());
        assert forall|k: int| 0 <= k < orig_handlers.len() implies orig_handlers[k].mailbox.view_msgs()
            + routed_to(orig_evs.take(0), pats, k) =~= orig_handlers[k].mailbox.view_msgs() by {}
    }
    while events.len() > 0
        invariant
            0 <= i <= orig_evs.len(),
            events@ == orig_evs.skip(i),
            handlers@.len() == orig_handlers.len(),
            pats == pattern_views(orig_handlers),
            pats == pattern_views(handlers@),
            forall|k: int|
                0 <= k < orig_handlers.len() ==> handlers@[k].path_spec
                    == orig_handlers[k].path_spec,
            forall|k: int|
                0 <= k < orig_handlers.len() ==> handlers@[k].mailbox.view_msgs()
                    == orig_handlers[k].mailbox.view_msgs() + routed_to(
                    orig_evs.take(i),
                    pats,
                    k,
                ),
            replies@.len() == unrouted(orig_evs.take(i), pats).len(),
            forall|j: int|
                0 <= j < replies@.len() ==> carries_response(
                    replies@[j],
                    unrouted(orig_evs.take(i), pats)[j],
                    |resp: HttpResponse| is_response_404(resp),
                ),
        decreases events@.len(),
    {
        let ghost evs_prev = events@;
        let ghost handlers_prev = handlers@;
        let ev = events.remove(0);
        proof {
            assert(events@ =~= evs_prev.skip(1));
            assert(orig_evs.skip(i)[0] == orig_evs[i]);
            assert(events@ =~= orig_evs.skip(i + 1));
            assert(orig_evs.take(i + 1) =~= orig_evs.take(i).push(orig_evs[i]));
        }
        let matched = dispatch_request(handlers, ev);
        proof {
            let k0 = first_match_idx(pats, orig_evs[i].body.path@);
            lemma_first_match_bounds(pats, orig_evs[i].body.path@);
            lemma_unrouted_snoc(orig_evs.take(i), orig_evs[i], pats);
            assert(pattern_views(handlers@) =~= pattern_views(handlers_prev));
            assert forall|k: int| 0 <= k < orig_handlers.len() implies handlers@[k].mailbox.view_msgs()
                == orig_handlers[k].mailbox.view_msgs() + routed_to(
                orig_evs.take(i + 1),
                pats,
                k,
            ) by {
                lemma_routed_snoc(orig_evs.take(i), orig_evs[i], pats, k);
                if k == k0 {
                    assert(handlers@[k].mailbox.view_msgs() =~= orig_handlers[k].mailbox.view_msgs()
                        + routed_to(orig_evs.take(i + 1), pats, k));
                } else {
                    assert(handlers@[k] == handlers_prev[k]);
                    assert(routed_to(orig_evs.take(i + 1), pats, k) =~= routed_to(
                        orig_evs.take(i),
                        pats,
                        k,
                    ));
                }
            }
        }
        match matched {
            Some(rev) => {
                replies.push(rev);
                proof {
                    assert(unrouted(orig_evs.take(i + 1), pats) =~= unrouted(
                        orig_evs.take(i),
                        pats,
                    ).push(orig_evs[i].ent));
                }
            },
            None => {
                proof {
                    assert(unrouted(orig_evs.take(i + 1), pats) =~= unrouted(
                        orig_evs.take(i),
                        pats,
                    ));
                }
            },
        }
        proof {
            i = i + 1;
        }
    }
    proof {
        assert(orig_evs.take(i) =~= orig_evs);
    }
    replies
}

} // verus!

