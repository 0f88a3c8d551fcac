//! Correlating filesystem delete and create events into move/rename
//! detections: deletes wait in a bounded window, creates are matched
//! against them by a path-similarity score, and completed moves are
//! remembered in a map from old to new path.

use vstd::prelude::*;

verus! {

use crate::dna::{spec_find_key, lemma_find_key};
use crate::paths::{
    lemma_common_components, path_components, path_extension, path_file_name, path_join,
    path_parent, path_relative_after, path_starts_with, spec_common_components, spec_components,
    spec_extension, spec_file_name, spec_join, spec_parent, spec_relative_after, spec_starts_with,
};
use crate::text::str_eq;
use vstd::string::StringExecFns;

/// A detected move or rename.
#[derive(Debug, Clone, PartialEq)]
pub struct MoveEvent {
    pub from: String,
    pub to: String,
    pub is_directory: bool,
    pub timestamp: u64,
}

/// What a filesystem watcher reports for one path.
#[derive(Debug, Clone, Copy, PartialEq, Eq, Structural)]
pub enum FsChange {
    Removed,
    Created,
    Modified,
}

/// What the detector makes of one watcher report.
#[derive(Debug, Clone)]
pub enum WatcherEvent {
    Move(MoveEvent),
    Create(String, bool),
    Delete(String, bool),
    Modify(String),
    Error(String),
}

/// True when an event stamped `ts` is still inside the correlation
/// window at `now`; clock steps backwards never expire anything.
pub open spec fn spec_not_expired(ts: u64, now: u64, window: u64) -> bool {
    now <= ts || now - ts <= window
}

/// The pending deletes still inside the window, in order.
pub open spec fn spec_clean_pending(
    p: Seq<(String, u64, bool)>,
    now: u64,
    window: u64,
) -> Seq<(String, u64, bool)>
    decreases p.len(),
{
    if p.len() == 0 {
        Seq::empty()
    } else {
        let front = spec_clean_pending(p.drop_last(), now, window);
        if spec_not_expired(p.last().1, now, window) {
            front.push(p.last())
        } else {
            front
        }
    }
}

/// The recent moves still inside the window, in order.
pub open spec fn spec_clean_recent(r: Seq<MoveEvent>, now: u64, window: u64) -> Seq<MoveEvent>
    decreases r.len(),
{
    if r.len() == 0 {
        Seq::empty()
    } else {
        let front = spec_clean_recent(r.drop_last(), now, window);
        if spec_not_expired(r.last().timestamp, now, window) {
            front.push(r.last())
        } else {
            front
        }
    }
}

/// The pending deletes that are not for `path`, in order.
pub open spec fn spec_drop_path(
    p: Seq<(String, u64, bool)>,
    path: Seq<char>,
) -> Seq<(String, u64, bool)>
    decreases p.len(),
{
    if p.len() == 0 {
        Seq::empty()
    } else {
        let front = spec_drop_path(p.drop_last(), path);
        if p.last().0@ != path {
            front.push(p.last())
        } else {
            front
        }
    }
}

/// A sequence cut down to its last `m` elements.
pub open spec fn spec_truncate_front<T>(s: Seq<T>, m: int) -> Seq<T> {
    if s.len() <= m {
        s
    } else {
        s.skip(s.len() - m)
    }
}

/// The similarity score of two paths: a shared file name counts 40, a
/// shared extension 20, a shared parent 30, and every shared leading
/// component 10.
pub open spec fn spec_score(old_path: Seq<char>, new_path: Seq<char>) -> int {
    (if spec_file_name(old_path) == spec_file_name(new_path) {
        40int
    } else {
        0int
    }) + (if spec_extension(old_path) == spec_extension(new_path) {
        20int
    } else {
        0int
    }) + (if spec_parent(old_path) == spec_parent(new_path) {
        30int
    } else {
        0int
    }) + 10 * spec_common_components(spec_components(old_path), spec_components(new_path))
}

/// The best pending match for a create: the highest score among
/// pending deletes of the same kind, the earliest index winning ties,
/// with zero and the empty index when nothing scores above zero.
pub open spec fn spec_best(
    p: Seq<(String, u64, bool)>,
    path: Seq<char>,
    is_directory: bool,
) -> (int, Option<int>)
    decreases p.len(),
{
    if p.len() == 0 {
        (0, Option::None)
    } else {
        let front = spec_best(p.drop_last(), path, is_directory);
        if p.last().2 == is_directory && spec_score(p.last().0@, path) > front.0 {
            (spec_score(p.last().0@, path), Option::Some(p.len() - 1))
        } else {
            front
        }
    }
}

/// A map after setting one key: the first entry under the key is
/// re-valued, or a new entry is appended.
pub open spec fn spec_map_set(
    m: Seq<(String, String)>,
    k: String,
    v: String,
) -> Seq<(String, String)> {
    let j = spec_find_key(m, k@);
    if j < m.len() {
        m.update(j, (m[j].0, v))
    } else {
        m.push((k, v))
    }
}

/// What recording a delete does: expired events are dropped, any older
/// pending delete of the same path is replaced, the delete joins the
/// back of the queue, and the queue keeps at most `max_pending`
/// entries, oldest out first.
pub open spec fn spec_record_delete_post(
    pre: MoveDetector,
    post: MoveDetector,
    path: String,
    is_directory: bool,
    now: u64,
) -> bool {
    let cleaned = spec_clean_pending(pre.pending_deletes@, now, pre.correlation_window);
    &&& post.pending_deletes@ == spec_truncate_front(
        spec_drop_path(cleaned, path@).push((path, now, is_directory)),
        pre.max_pending as int,
    )
    &&& post.recent_moves@ == spec_clean_recent(pre.recent_moves@, now, pre.correlation_window)
    &&& post.move_map@ == pre.move_map@
    &&& post.correlation_window == pre.correlation_window
    &&& post.max_pending == pre.max_pending
}

/// What matching a create does: after expiry, the best pending delete
/// of the same kind with score at least 50 becomes a move, leaves the
/// queue, re-points the move map, and joins the recent moves, of which
/// at most 100 are kept; with no such delete, nothing changes but the
/// expiry.
pub open spec fn spec_match_create_post(
    pre: MoveDetector,
    post: MoveDetector,
    path: String,
    is_directory: bool,
    now: u64,
    r: Option<MoveEvent>,
) -> bool {
    let cp = spec_clean_pending(pre.pending_deletes@, now, pre.correlation_window);
    let cr = spec_clean_recent(pre.recent_moves@, now, pre.correlation_window);
    let best = spec_best(cp, path@, is_directory);
    &&& post.correlation_window == pre.correlation_window
    &&& post.max_pending == pre.max_pending
    &&& match r {
        Option::None => {
            &&& best.0 < 50
            &&& post.pending_deletes@ == cp
            &&& post.recent_moves@ == cr
            &&& post.move_map@ == pre.move_map@
        },
        Option::Some(mv) => {
            &&& best.0 >= 50
            &&& best.1 is Some
            &&& {
                let idx = best.1.unwrap();
                &&& mv.from == cp[idx].0
                &&& mv.to == path
                &&& mv.is_directory == is_directory
                &&& mv.timestamp == now
                &&& post.pending_deletes@ == cp.remove(idx)
                &&& post.move_map@ == spec_map_set(pre.move_map@, cp[idx].0, path)
                &&& post.recent_moves@ == spec_truncate_front(cr.push(mv), 100)
            }
        },
    }
}

/// What a directory move does to the move map: every entry whose old
/// path lies under the moved directory is re-pointed into the new
/// directory; keys and everything else stay put.
pub open spec fn spec_dir_move_post(
    pre: MoveDetector,
    post: MoveDetector,
    old_dir: Seq<char>,
    new_dir: Seq<char>,
) -> bool {
    &&& post.move_map@.len() == pre.move_map@.len()
    &&& forall|j: int|
        0 <= j < pre.move_map@.len() ==> {
            &&& (#[trigger] post.move_map@[j]).0 == pre.move_map@[j].0
            &&& (if spec_starts_with(pre.move_map@[j].0@, old_dir) {
                post.move_map@[j].1@ == spec_join(
                    new_dir,
                    spec_relative_after(pre.move_map@[j].0@, old_dir),
                )
            } else {
                post.move_map@[j].1 == pre.move_map@[j].1
            })
        }
    &&& post.pending_deletes@ == pre.pending_deletes@
    &&& post.recent_moves@ == pre.recent_moves@
    &&& post.correlation_window == pre.correlation_window
    &&& post.max_pending == pre.max_pending
}

/// Correlates delete and create events inside a time window to detect
/// moves and renames.
#[derive(Debug)]
pub struct MoveDetector {
    /// Recent delete events waiting for a matching create, oldest
    /// first: path, timestamp in milliseconds, and whether a directory.
    pub pending_deletes: Vec<(String, u64, bool)>,
    /// How long, in milliseconds, a delete may wait for its create.
    pub correlation_window: u64,
    /// Old path to new path for every completed move.
    pub move_map: Vec<(String, String)>,
    /// Completed moves still inside the window, oldest first.
    pub recent_moves: Vec<MoveEvent>,
    /// How many pending deletes are tracked at most.
    pub max_pending: usize,
}

/// Relies on `std::time::SystemTime::now`: a wall-clock reading in
/// milliseconds. Nothing is promised of the value.
#[verifier::external_body]
fn now_millis() -> u64 {
    match std::time::SystemTime::now().duration_since(std::time::SystemTime::UNIX_EPOCH) {
        Ok(d) => d.as_millis() as u64,
        Err(_) => 0,
    }
}

impl MoveDetector {
    /// An empty detector with the given correlation window in
    /// milliseconds, tracking at most 1000 pending deletes.
    pub fn new(correlation_window: u64) -> (r: MoveDetector)
        ensures
            r.pending_deletes@.len() == 0,
            r.correlation_window == correlation_window,
            r.move_map@.len() == 0,
            r.recent_moves@.len() == 0,
            r.max_pending == 1000,
    {
        MoveDetector {
            pending_deletes: Vec::new(),
            correlation_window,
            move_map: Vec::new(),
            recent_moves: Vec::new(),
            max_pending: 1000,
        }
    }

    /// Drop every pending delete and recent move outside the window.
    fn cleanup_expired_at(&mut self, now: u64)
        ensures
            final(self).pending_deletes@ == spec_clean_pending(
                old(self).pending_deletes@,
                now,
                old(self).correlation_window,
            ),
            final(self).recent_moves@ == spec_clean_recent(
                old(self).recent_moves@,
                now,
                old(self).correlation_window,
            ),
            final(self).move_map@ == old(self).move_map@,
            final(self).correlation_window == old(self).correlation_window,
            final(self).max_pending == old(self).max_pending,
    {
        let w = self.correlation_window;
        let n = self.pending_deletes.len();
        let mut kept: Vec<(String, u64, bool)> = Vec::new();
        let mut i: usize = 0;
        while i < n
            invariant
                i <= n,
                n == old(self).pending_deletes@.len(),
                self.pending_deletes@ == old(self).pending_deletes@,
                w == old(self).correlation_window,
                kept@ == spec_clean_pending(old(self).pending_deletes@.take(i as int), now, w),
            decreases n - i,
        {
            proof {
                assert(old(self).pending_deletes@.take(i + 1).drop_last() =~= old(
                    self,
                ).pending_deletes@.take(i as int));
            }
            let ts = self.pending_deletes[i].1;
            if now <= ts || now - ts <= w {
                let e = &self.pending_deletes[i];
                kept.push((e.0.clone(), e.1, e.2));
                proof {
                    assert((old(self).pending_deletes@[i as int].0, old(
                        self,
                    ).pending_deletes@[i as int].1, old(self).pending_deletes@[i as int].2) == old(
                        self,
                    ).pending_deletes@[i as int]);
                }
            }
            i = i + 1;
        }
        proof {
            assert(old(self).pending_deletes@.take(n as int) =~= old(self).pending_deletes@);
        }
        self.pending_deletes = kept;
        let m = self.recent_moves.len();
        let mut kept2: Vec<MoveEvent> = Vec::new();
        let mut j: usize = 0;
        while j < m
            invariant
                j <= m,
                m == old(self).recent_moves@.len(),
                self.recent_moves@ == old(self).recent_moves@,
                w == old(self).correlation_window,
                kept2@ == spec_clean_recent(old(self).recent_moves@.take(j as int), now, w),
            decreases m - j,
        {
            proof {
                assert(old(self).recent_moves@.take(j + 1).drop_last() =~= old(
                    self,
                ).recent_moves@.take(j as int));
            }
            let ts = self.recent_moves[j].timestamp;
            if now <= ts || now - ts <= w {
                let e = &self.recent_moves[j];
                kept2.push(
                    MoveEvent {
                        from: e.from.clone(),
                        to: e.to.clone(),
                        is_directory: e.is_directory,
                        timestamp: e.timestamp,
                    },
                );
                proof {
                    assert(MoveEvent {
                        from: old(self).recent_moves@[j as int].from,
                        to: old(self).recent_moves@[j as int].to,
                        is_directory: old(self).recent_moves@[j as int].is_directory,
                        timestamp: old(self).recent_moves@[j as int].timestamp,
                    } == old(self).recent_moves@[j as int]);
                }
            }
            j = j + 1;
        }
        proof {
            assert(old(self).recent_moves@.take(m as int) =~= old(self).recent_moves@);
        }
        self.recent_moves = kept2;
    }

    /// Record a delete at an explicit time, as
    /// `spec_record_delete_post` describes.
    pub fn record_delete_at(&mut self, path: String, is_directory: bool, now: u64)
        ensures
            spec_record_delete_post(*old(self), *final(self), path, is_directory, now),
    {
        self.cleanup_expired_at(now);
        let ghost cleaned = self.pending_deletes@;
        let n = self.pending_deletes.len();
        let mut kept: Vec<(String, u64, bool)> = Vec::new();
        let mut i: usize = 0;
        while i < n
            invariant
                i <= n,
                n == cleaned.len(),
                self.pending_deletes@ == cleaned,
                kept@ == spec_drop_path(cleaned.take(i as int), path@),
            decreases n - i,
        {
            proof {
                assert(cleaned.take(i + 1).drop_last() =~= cleaned.take(i as int));
            }
            if !str_eq(self.pending_deletes[i].0.as_str(), path.as_str()) {
                let e = &self.pending_deletes[i];
                kept.push((e.0.clone(), e.1, e.2));
                proof {
                    assert((cleaned[i as int].0, cleaned[i as int].1, cleaned[i as int].2)
                        == cleaned[i as int]);
                }
            }
            i = i + 1;
        }
        proof {
            assert(cleaned.take(n as int) =~= cleaned);
        }
        kept.push((path, now, is_directory));
        let ghost pushed = kept@;
        let maxp = self.max_pending;
        while kept.len() > maxp
            invariant
                maxp == old(self).max_pending,
                spec_truncate_front(pushed, maxp as int) == spec_truncate_front(
                    kept@,
                    maxp as int,
                ),
            decreases kept@.len(),
        {
            kept.remove(0);
            proof {
                assert(spec_truncate_front(pushed, maxp as int) =~= spec_truncate_front(
                    kept@,
                    maxp as int,
                ));
            }
        }
        self.pending_deletes = kept;
    }

    /// Record that a path was deleted just now.
    pub fn record_delete(&mut self, path: String, is_directory: bool)
        ensures
            exists|now: u64|
                spec_record_delete_post(*old(self), *final(self), path, is_directory, now),
    {
        let now = now_millis();
        self.record_delete_at(path, is_directory, now);
    }

    /// The score of one candidate pair of paths.
    fn calculate_match_score(&self, old_path: &str, new_path: &str) -> (r: u128)
        ensures
            r == spec_score(old_path@, new_path@),
    {
        let mut score: u128 = 0;
        let of = path_file_name(old_path);
        let nf = path_file_name(new_path);
        let same_name = match (&of, &nf) {
            (Some(a), Some(b)) => str_eq(a.as_str(), b.as_str()),
            (None, None) => true,
            _ => false,
        };
        if same_name {
            score = score + 40;
        }
        let oe = path_extension(old_path);
        let ne = path_extension(new_path);
        let same_ext = match (&oe, &ne) {
            (Some(a), Some(b)) => str_eq(a.as_str(), b.as_str()),
            (None, None) => true,
            _ => false,
        };
        if same_ext {
            score = score + 20;
        }
        let op = path_parent(old_path);
        let np = path_parent(new_path);
        let same_parent = match (&op, &np) {
            (Some(a), Some(b)) => str_eq(a.as_str(), b.as_str()),
            (None, None) => true,
            _ => false,
        };
        if same_parent {
            score = score + 30;
        }
        let oc = path_components(old_path);
        let nc = path_components(new_path);
        let min = if oc.len() < nc.len() {
            oc.len()
        } else {
            nc.len()
        };
        let mut cnt: usize = 0;
        loop
            invariant_except_break
                cnt <= min,
                min == (if oc@.len() < nc@.len() {
                    oc@.len() as int
                } else {
                    nc@.len() as int
                }),
                oc@.map_values(|x: String| x@) == spec_components(old_path@),
                nc@.map_values(|x: String| x@) == spec_components(new_path@),
                forall|j: int|
                    0 <= j < cnt ==> spec_components(old_path@)[j] == spec_components(
                        new_path@,
                    )[j],
            ensures
                cnt == spec_common_components(
                    spec_components(old_path@),
                    spec_components(new_path@),
                ),
            decreases min - cnt,
        {
            if cnt == min {
                proof {
                    lemma_common_components(
                        spec_components(old_path@),
                        spec_components(new_path@),
                    );
                }
                break ;
            }
            if !str_eq(oc[cnt].as_str(), nc[cnt].as_str()) {
                proof {
                    assert(spec_components(old_path@)[cnt as int] != spec_components(
                        new_path@,
                    )[cnt as int]);
                    lemma_common_components(
                        spec_components(old_path@),
                        spec_components(new_path@),
                    );
                }
                break ;
            }
            cnt = cnt + 1;
        }
        score + 10 * (cnt as u128)
    }

    /// The index of the best pending match for a create, when its
    /// score reaches the confidence floor of 50.
    fn find_best_match(&self, new_path: &str, is_directory: bool) -> (r: Option<usize>)
        ensures
            ({
                let best = spec_best(self.pending_deletes@, new_path@, is_directory);
                match r {
                    Some(k) => best.0 >= 50 && best.1 == Option::Some(k as int),
                    None => best.0 < 50,
                }
            }),
    {
        let n = self.pending_deletes.len();
        let mut best_score: u128 = 0;
        let mut best_idx: Option<usize> = None;
        let mut i: usize = 0;
        while i < n
            invariant
                i <= n,
                n == self.pending_deletes@.len(),
                ({
                    let b = spec_best(self.pending_deletes@.take(i as int), new_path@, is_directory);
                    &&& best_score == b.0
                    &&& match best_idx {
                        Some(k) => b.1 == Option::Some(k as int),
                        None => b.1 is None && best_score == 0,
                    }
                }),
            decreases n - i,
        {
            proof {
                assert(self.pending_deletes@.take(i + 1).drop_last() =~= self.pending_deletes@.take(
                    i as int,
                ));
            }
            let e = &self.pending_deletes[i];
            if e.2 == is_directory {
                let score = self.calculate_match_score(e.0.as_str(), new_path);
                if score > best_score {
                    best_score = score;
                    best_idx = Some(i);
                }
            }
            i = i + 1;
        }
        proof {
            assert(self.pending_deletes@.take(n as int) =~= self.pending_deletes@);
        }
        if best_score >= 50 {
            best_idx
        } else {
            None
        }
    }

    /// Match a create against the pending deletes at an explicit time,
    /// as `spec_match_create_post` describes.
    pub fn match_create_at(&mut self, path: String, is_directory: bool, now: u64) -> (r: Option<
        MoveEvent,
    >)
        ensures
            spec_match_create_post(*old(self), *final(self), path, is_directory, now, r),
    {
        self.cleanup_expired_at(now);
        let ghost cp = self.pending_deletes@;
        let idx = match self.find_best_match(path.as_str(), is_directory) {
            Some(k) => k,
            None => {
                return None;
            },
        };
        proof {
            lemma_best_bounds(cp, path@, is_directory);
        }
        let removed = self.pending_deletes.remove(idx);
        let old_path = removed.0;
        let mv = MoveEvent {
            from: old_path.clone(),
            to: path.clone(),
            is_directory,
            timestamp: now,
        };
        let ghost pend_after = self.pending_deletes@;
        let ghost recent_cleaned = self.recent_moves@;
        let m = self.move_map.len();
        let mut j: usize = 0;
        let mut updated = false;
        while j < m && !updated
            invariant
                j <= m,
                self.pending_deletes@ == pend_after,
                self.recent_moves@ == recent_cleaned,
                self.correlation_window == old(self).correlation_window,
                self.max_pending == old(self).max_pending,
                m == self.move_map@.len(),
                self.move_map@.len() == old(self).move_map@.len(),
                !updated ==> self.move_map@ == old(self).move_map@,
                !updated ==> forall|q: int| 0 <= q < j ==> old(self).move_map@[q].0@ != old_path@,
                updated ==> {
                    &&& j < m
                    &&& spec_find_key(old(self).move_map@, old_path@) == j
                    &&& self.move_map@ == old(self).move_map@.update(
                        j as int,
                        (old(self).move_map@[j as int].0, path),
                    )
                },
                old_path@ == cp[spec_best(cp, path@, is_directory).1.unwrap()].0@,
            decreases m - j + (if updated {
                0int
            } else {
                1int
            }),
        {
            if str_eq(self.move_map[j].0.as_str(), old_path.as_str()) {
                proof {
                    lemma_find_key(old(self).move_map@, old_path@);
                }
                let key = self.move_map[j].0.clone();
                let val = path.clone();
                self.move_map.set(j, (key, val));
                updated = true;
            } else {
                j = j + 1;
            }
        }
        if !updated {
            proof {
                lemma_find_key(old(self).move_map@, old_path@);
            }
            self.move_map.push((old_path.clone(), path.clone()));
        }
        let ghost cr = self.recent_moves@;
        let mv2 = MoveEvent {
            from: mv.from.clone(),
            to: mv.to.clone(),
            is_directory: mv.is_directory,
            timestamp: mv.timestamp,
        };
        proof {
            assert(mv2 == mv);
        }
        self.recent_moves.push(mv2);
        let ghost pushed = self.recent_moves@;
        let ghost map_after = self.move_map@;
        while self.recent_moves.len() > 100
            invariant
                self.pending_deletes@ == pend_after,
                self.move_map@ == map_after,
                self.correlation_window == old(self).correlation_window,
                self.max_pending == old(self).max_pending,
                spec_truncate_front(pushed, 100) == spec_truncate_front(self.recent_moves@, 100),
            decreases self.recent_moves@.len(),
        {
            let ghost before = self.recent_moves@;
            self.recent_moves.remove(0);
            proof {
                assert(spec_truncate_front(before, 100) =~= spec_truncate_front(
                    self.recent_moves@,
                    100,
                ));
            }
        }
        Some(mv)
    }

    /// Match a create that happened just now.
    pub fn match_create(&mut self, path: String, is_directory: bool) -> (r: Option<MoveEvent>)
        ensures
            exists|now: u64|
                spec_match_create_post(*old(self), *final(self), path, is_directory, now, r),
    {
        let now = now_millis();
        self.match_create_at(path, is_directory, now)
    }

    /// A copy of the map from old paths to new paths.
    pub fn get_move_map(&self) -> (r: Vec<(String, String)>)
        ensures
            r@ == self.move_map@,
    {
        let n = self.move_map.len();
        let mut out: Vec<(String, String)> = Vec::new();
        let mut i: usize = 0;
        while i < n
            invariant
                i <= n,
                n == self.move_map@.len(),
                out@ == self.move_map@.take(i as int),
            decreases n - i,
        {
            let e = &self.move_map[i];
            out.push((e.0.clone(), e.1.clone()));
            proof {
                assert((self.move_map@[i as int].0, self.move_map@[i as int].1)
                    == self.move_map@[i as int]);
                assert(out@ =~= self.move_map@.take(i + 1));
            }
            i = i + 1;
        }
        proof {
            assert(self.move_map@.take(n as int) =~= self.move_map@);
        }
        out
    }

    /// A copy of the recent moves, oldest first.
    pub fn get_recent_moves(&self) -> (r: Vec<MoveEvent>)
        ensures
            r@ == self.recent_moves@,
    {
        let n = self.recent_moves.len();
        let mut out: Vec<MoveEvent> = Vec::new();
        let mut i: usize = 0;
        while i < n
            invariant
                i <= n,
                n == self.recent_moves@.len(),
                out@ == self.recent_moves@.take(i as int),
            decreases n - i,
        {
            let e = &self.recent_moves[i];
            out.push(
                MoveEvent {
                    from: e.from.clone(),
                    to: e.to.clone(),
                    is_directory: e.is_directory,
                    timestamp: e.timestamp,
                },
            );
            proof {
                assert(MoveEvent {
                    from: self.recent_moves@[i as int].from,
                    to: self.recent_moves@[i as int].to,
                    is_directory: self.recent_moves@[i as int].is_directory,
                    timestamp: self.recent_moves@[i as int].timestamp,
                } == self.recent_moves@[i as int]);
                assert(out@ =~= self.recent_moves@.take(i + 1));
            }
            i = i + 1;
        }
        proof {
            assert(self.recent_moves@.take(n as int) =~= self.recent_moves@);
        }
        out
    }

    /// Where a path moved to, if a move of it was recorded.
    pub fn get_new_path(&self, old_path: &str) -> (r: Option<String>)
        ensures
            match r {
                Some(v) => {
                    &&& spec_find_key(self.move_map@, old_path@) < self.move_map@.len()
                    &&& v == self.move_map@[spec_find_key(self.move_map@, old_path@)].1
                },
                None => spec_find_key(self.move_map@, old_path@) == self.move_map@.len(),
            },
    {
        let n = self.move_map.len();
        let mut i: usize = 0;
        while i < n
            invariant
                i <= n,
                n == self.move_map@.len(),
                forall|j: int| 0 <= j < i ==> self.move_map@[j].0@ != old_path@,
            decreases n - i,
        {
            if str_eq(self.move_map[i].0.as_str(), old_path) {
                proof {
                    lemma_find_key(self.move_map@, old_path@);
                }
                return Some(self.move_map[i].1.clone());
            }
            i = i + 1;
        }
        proof {
            lemma_find_key(self.move_map@, old_path@);
        }
        None
    }

    /// Re-point every recorded move whose old path lies under the
    /// moved directory, as `spec_dir_move_post` describes.
    pub fn handle_directory_move(&mut self, old_dir: &str, new_dir: &str)
        ensures
            spec_dir_move_post(*old(self), *final(self), old_dir@, new_dir@),
    {
        let n = self.move_map.len();
        let mut i: usize = 0;
        while i < n
            invariant
                i <= n,
                n == self.move_map@.len(),
                self.move_map@.len() == old(self).move_map@.len(),
                self.pending_deletes@ == old(self).pending_deletes@,
                self.recent_moves@ == old(self).recent_moves@,
                self.correlation_window == old(self).correlation_window,
                self.max_pending == old(self).max_pending,
                forall|j: int|
                    0 <= j < n ==> (#[trigger] self.move_map@[j]).0 == old(self).move_map@[j].0,
                forall|j: int|
                    0 <= j < i ==> (if spec_starts_with(old(self).move_map@[j].0@, old_dir@) {
                        (#[trigger] self.move_map@[j]).1@ == spec_join(
                            new_dir@,
                            spec_relative_after(old(self).move_map@[j].0@, old_dir@),
                        )
                    } else {
                        self.move_map@[j].1 == old(self).move_map@[j].1
                    }),
                forall|j: int|
                    i <= j < n ==> (#[trigger] self.move_map@[j]).1 == old(self).move_map@[j].1,
            decreases n - i,
        {
            if path_starts_with(self.move_map[i].0.as_str(), old_dir) {
                let relative = path_relative_after(self.move_map[i].0.as_str(), old_dir);
                let joined = path_join(new_dir, relative.as_str());
                let key = self.move_map[i].0.clone();
                self.move_map.set(i, (key, joined));
            }
            i = i + 1;
        }
    }

    /// The recent moves that touch the given directory, on either
    /// side.
    pub fn get_moves_in_directory(&self, dir: &str) -> (r: Vec<MoveEvent>)
        ensures
            r@ == spec_moves_in_dir(self.recent_moves@, dir@),
    {
        let n = self.recent_moves.len();
        let mut out: Vec<MoveEvent> = Vec::new();
        let mut i: usize = 0;
        while i < n
            invariant
                i <= n,
                n == self.recent_moves@.len(),
                out@ == spec_moves_in_dir(self.recent_moves@.take(i as int), dir@),
            decreases n - i,
        {
            proof {
                assert(self.recent_moves@.take(i + 1).drop_last() =~= self.recent_moves@.take(
                    i as int,
                ));
            }
            let e = &self.recent_moves[i];
            if path_starts_with(e.from.as_str(), dir) || path_starts_with(e.to.as_str(), dir) {
                out.push(
                    MoveEvent {
                        from: e.from.clone(),
                        to: e.to.clone(),
                        is_directory: e.is_directory,
                        timestamp: e.timestamp,
                    },
                );
                proof {
                    assert(MoveEvent {
                        from: self.recent_moves@[i as int].from,
                        to: self.recent_moves@[i as int].to,
                        is_directory: self.recent_moves@[i as int].is_directory,
                        timestamp: self.recent_moves@[i as int].timestamp,
                    } == self.recent_moves@[i as int]);
                }
            }
            i = i + 1;
        }
        proof {
            assert(self.recent_moves@.take(n as int) =~= self.recent_moves@);
        }
        out
    }

    /// Decide what one watcher report means at an explicit time: a
    /// remove is recorded and, for a directory already re-pointed in
    /// the move map, reported as a move; a create is matched against
    /// the pending deletes, a directory match also re-pointing the map;
    /// a modify passes through.
    pub fn handle_fs_change_at(&mut self, change: FsChange, path: String, is_directory: bool, now: u64) -> (r:
        WatcherEvent)
        ensures
            match change {
                FsChange::Modified => *final(self) == *old(self) && r == WatcherEvent::Modify(path),
                FsChange::Removed => {
                    &&& spec_record_delete_post(*old(self), *final(self), path, is_directory, now)
                    &&& {
                        let k = spec_find_key(final(self).move_map@, path@);
                        if is_directory && k < final(self).move_map@.len() {
                            r == WatcherEvent::Move(
                                MoveEvent {
                                    from: path,
                                    to: final(self).move_map@[k].1,
                                    is_directory: true,
                                    timestamp: now,
                                },
                            )
                        } else {
                            r == WatcherEvent::Delete(path, is_directory)
                        }
                    }
                },
                FsChange::Created => {
                    exists|mid: MoveDetector, omv: Option<MoveEvent>|
                        {
                            &&& spec_match_create_post(*old(self), mid, path, is_directory, now, omv)
                            &&& match omv {
                                Option::Some(mv) => {
                                    &&& r == WatcherEvent::Move(mv)
                                    &&& (if is_directory {
                                        spec_dir_move_post(mid, *final(self), mv.from@, mv.to@)
                                    } else {
                                        *final(self) == mid
                                    })
                                },
                                Option::None => {
                                    &&& r == WatcherEvent::Create(path, is_directory)
                                    &&& *final(self) == mid
                                },
                            }
                        }
                },
            },
    {
        match change {
            FsChange::Removed => {
                self.record_delete_at(path.clone(), is_directory, now);
                if is_directory {
                    match self.get_new_path(path.as_str()) {
                        Some(new_path) => {
                            return WatcherEvent::Move(
                                MoveEvent {
                                    from: path,
                                    to: new_path,
                                    is_directory: true,
                                    timestamp: now,
                                },
                            );
                        },
                        None => {},
                    }
                }
                WatcherEvent::Delete(path, is_directory)
            },
            FsChange::Created => {
                match self.match_create_at(path.clone(), is_directory, now) {
                    Some(mv) => {
                        let ghost mid = *self;
                        if is_directory {
                            self.handle_directory_move(mv.from.as_str(), mv.to.as_str());
                        }
                        WatcherEvent::Move(mv)
                    },
                    None => WatcherEvent::Create(path, is_directory),
                }
            },
            FsChange::Modified => WatcherEvent::Modify(path),
        }
    }

    /// Decide what one watcher report, arriving now, means.
    pub fn handle_fs_change(&mut self, change: FsChange, path: String, is_directory: bool) -> (r:
        WatcherEvent)
        ensures
            match change {
                FsChange::Modified => *final(self) == *old(self) && r == WatcherEvent::Modify(
                    path,
                ),
                FsChange::Removed => exists|now: u64|
                    spec_record_delete_post(*old(self), *final(self), path, is_directory, now),
                FsChange::Created => exists|now: u64, mid: MoveDetector, omv: Option<MoveEvent>|
                    spec_match_create_post(*old(self), mid, path, is_directory, now, omv),
            },
    {
        let now = now_millis();
        self.handle_fs_change_at(change, path, is_directory, now)
    }
}

/// The best match, when there is one, indexes a pending delete.
pub proof fn lemma_best_bounds(p: Seq<(String, u64, bool)>, path: Seq<char>, is_directory: bool)
    ensures
        spec_best(p, path, is_directory).0 >= 0,
        spec_best(p, path, is_directory).1 is Some ==> {
            &&& 0 <= spec_best(p, path, is_directory).1.unwrap() < p.len()
            &&& spec_best(p, path, is_directory).0 > 0
        },
        spec_best(p, path, is_directory).1 is None ==> spec_best(p, path, is_directory).0 == 0,
    decreases p.len(),
{
    if p.len() > 0 {
        lemma_best_bounds(p.drop_last(), path, is_directory);
        lemma_score_nonneg(p.last().0@, path);
    }
}

/// A similarity score is never negative.
pub proof fn lemma_score_nonneg(a: Seq<char>, b: Seq<char>)
    ensures
        spec_score(a, b) >= 0,
{
    lemma_common_components(spec_components(a), spec_components(b));
}

/// The recent moves whose source or destination lies under `dir`.
pub open spec fn spec_moves_in_dir(r: Seq<MoveEvent>, dir: Seq<char>) -> Seq<MoveEvent>
    decreases r.len(),
{
    if r.len() == 0 {
        Seq::empty()
    } else {
        let front = spec_moves_in_dir(r.drop_last(), dir);
        if spec_starts_with(r.last().from@, dir) || spec_starts_with(r.last().to@, dir) {
            front.push(r.last())
        } else {
            front
        }
    }
}

} // verus!
