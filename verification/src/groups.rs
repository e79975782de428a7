//! Transitive substitution-group members, found depth first: each member
//! is listed when first met, and a member that heads a group is entered
//! right away, before the rest of its own group.
use vstd::prelude::*;

use crate::schema::CompiledSchema;
use crate::streaming::{all_members, direct_members, distinct_names, found_from, lemma_direct_in, listed, name_variants};
use crate::validation::{lemma_unvisited_push, names_view, unvisited};

verus! {

/// A depth-first walk in progress: the members listed so far, the names
/// already entered, and for each entered name still open (outermost first)
/// its direct members not taken yet.
pub struct Walk {
    /// Members listed so far, each once.
    pub members: Seq<String>,
    /// Names already entered.
    pub visited: Seq<Seq<char>>,
    /// Direct members still to be taken, per open name.
    pub frames: Seq<Seq<String>>,
}

/// The direct members of `x`, under every name it is looked up under.
pub open spec fn direct_of(schema: CompiledSchema, x: Seq<char>) -> Seq<String> {
    direct_members(schema, name_variants(schema, x))
}

/// Number of names still to be taken.
pub open spec fn pending(frames: Seq<Seq<String>>) -> nat
    decreases frames.len(),
{
    if frames.len() == 0 {
        0
    } else {
        pending(frames.drop_last()) + frames.last().len()
    }
}

/// Every name still to be taken is a member of some group.
pub open spec fn walk_ok(schema: CompiledSchema, w: Walk) -> bool {
    forall|i: int, t: int|
        0 <= i < w.frames.len() && 0 <= t < w.frames[i].len() ==> all_members(
            schema.substitution_groups.entries@,
        ).contains(#[trigger] w.frames[i][t]@)
}

/// One step of the walk: an exhausted innermost frame is left; otherwise
/// its next name is taken, listed unless already listed, and, when it was
/// not entered before, entered with its direct members as the new
/// innermost frame.
pub open spec fn walk_step(schema: CompiledSchema, w: Walk) -> Walk {
    let top = w.frames.last();
    if top.len() == 0 {
        Walk { frames: w.frames.drop_last(), ..w }
    } else {
        let m = top[0];
        let members = if names_view(w.members).contains(m@) {
            w.members
        } else {
            w.members.push(m)
        };
        let rest = w.frames.drop_last().push(top.drop_first());
        if w.visited.contains(m@) {
            Walk { members, visited: w.visited, frames: rest }
        } else {
            Walk { members, visited: w.visited.push(m@), frames: rest.push(direct_of(schema, m@)) }
        }
    }
}

/// The members listed when the walk has run to its end.
pub open spec fn walk(schema: CompiledSchema, w: Walk) -> Seq<String>
    decreases unvisited(all_members(schema.substitution_groups.entries@), w.visited),
        pending(w.frames),
        w.frames.len(),
    when walk_ok(schema, w)
{
    if w.frames.len() == 0 {
        w.members
    } else {
        proof {
            lemma_step_decreases(schema, w);
        }
        walk(schema, walk_step(schema, w))
    }
}

/// A step lowers the walk's measure.
pub proof fn lemma_step_decreases(schema: CompiledSchema, w: Walk)
    requires
        walk_ok(schema, w),
        w.frames.len() > 0,
    ensures
        ({
            let u = all_members(schema.substitution_groups.entries@);
            let n = walk_step(schema, w);
            ||| unvisited(u, n.visited) < unvisited(u, w.visited)
            ||| unvisited(u, n.visited) == unvisited(u, w.visited) && pending(n.frames) < pending(w.frames)
            ||| unvisited(u, n.visited) == unvisited(u, w.visited) && pending(n.frames) == pending(w.frames)
                && n.frames.len() < w.frames.len()
        }),
{
    let u = all_members(schema.substitution_groups.entries@);
    let top = w.frames.last();
    if top.len() > 0 {
        let m = top[0];
        let rest = w.frames.drop_last().push(top.drop_first());
        assert(rest.drop_last() =~= w.frames.drop_last());
        assert(pending(rest) == pending(w.frames.drop_last()) + top.len() - 1);
        if !w.visited.contains(m@) {
            assert(w.frames[w.frames.len() - 1][0] == m);
            lemma_unvisited_push(u, w.visited, m@);
        }
    }
}

/// A step keeps every name to be taken a member of some group.
pub proof fn lemma_step_ok(schema: CompiledSchema, w: Walk)
    requires
        walk_ok(schema, w),
        w.frames.len() > 0,
    ensures
        walk_ok(schema, walk_step(schema, w)),
{
    let n = walk_step(schema, w);
    let top = w.frames.last();
    let l = w.frames.len() - 1;
    if top.len() > 0 {
        let m = top[0];
        lemma_direct_in(schema, name_variants(schema, m@));
        assert forall|i: int, t: int|
            0 <= i < n.frames.len() && 0 <= t < n.frames[i].len() implies all_members(
            schema.substitution_groups.entries@,
        ).contains(#[trigger] n.frames[i][t]@) by {
            if i < l {
                assert(n.frames[i] == w.frames[i]);
            } else if i == l {
                assert(n.frames[i][t] == w.frames[l][t + 1]);
            } else {
                assert(n.frames[i] == direct_of(schema, m@));
            }
        }
    } else {
        assert forall|i: int, t: int|
            0 <= i < n.frames.len() && 0 <= t < n.frames[i].len() implies all_members(
            schema.substitution_groups.entries@,
        ).contains(#[trigger] n.frames[i][t]@) by {
            assert(n.frames[i] == w.frames[i]);
        }
    }
}

/// The walk from a head: the head entered, its direct members to be taken.
pub open spec fn start_walk(schema: CompiledSchema, head: Seq<char>) -> Walk {
    Walk { members: Seq::empty(), visited: seq![head], frames: seq![direct_of(schema, head)] }
}

/// All members of the substitution group headed by `head`, transitively
/// (a member that heads a group brings its own members), each once, in
/// depth-first order.
pub open spec fn members_list(schema: CompiledSchema, head: Seq<char>) -> Seq<String> {
    walk(schema, start_walk(schema, head))
}

/// The walk from a head may be run.
pub proof fn lemma_start_ok(schema: CompiledSchema, head: Seq<char>)
    ensures
        walk_ok(schema, start_walk(schema, head)),
{
    lemma_direct_in(schema, name_variants(schema, head));
    let w = start_walk(schema, head);
    assert forall|i: int, t: int|
        0 <= i < w.frames.len() && 0 <= t < w.frames[i].len() implies all_members(
        schema.substitution_groups.entries@,
    ).contains(#[trigger] w.frames[i][t]@) by {
        assert(w.frames[i] == direct_of(schema, head));
    }
}

/// `x` is still to be taken by the walk.
pub open spec fn in_frames(frames: Seq<Seq<String>>, x: Seq<char>) -> bool {
    exists|i: int, t: int| 0 <= i < frames.len() && 0 <= t < frames[i].len() && #[trigger] frames[i][t]@ == x
}

/// `x` is listed or still to be taken.
pub open spec fn covered(w: Walk, x: Seq<char>) -> bool {
    names_view(w.members).contains(x) || in_frames(w.frames, x)
}

/// What holds at every point of the walk from `head`, with `owners[i]` the
/// name whose direct members frame `i` holds.
pub open spec fn walk_inv(schema: CompiledSchema, head: Seq<char>, w: Walk, owners: Seq<Seq<char>>) -> bool {
    &&& owners.len() == w.frames.len()
    &&& distinct_names(w.members)
    &&& forall|k: int| 0 <= k < w.members.len() ==> #[trigger] found_from(schema, head, w.members, k)
    &&& forall|k: int| 0 <= k < w.members.len() ==> w.visited.contains(#[trigger] w.members[k]@)
    &&& w.visited.contains(head)
    &&& forall|j: int|
        0 <= j < w.visited.len() ==> #[trigger] w.visited[j] == head || names_view(w.members).contains(
            w.visited[j],
        )
    &&& forall|j: int, t: int|
        0 <= j < w.visited.len() && 0 <= t < direct_of(schema, w.visited[j]).len() ==> covered(
            w,
            #[trigger] direct_of(schema, w.visited[j])[t]@,
        )
    &&& forall|i: int, t: int|
        0 <= i < w.frames.len() && 0 <= t < w.frames[i].len() ==> names_view(
            direct_of(schema, owners[i]),
        ).contains(#[trigger] w.frames[i][t]@)
    &&& forall|i: int| 0 <= i < owners.len() ==> #[trigger] owners[i] == head || names_view(w.members).contains(owners[i])
}

/// Listing one more name keeps what was listed.
proof fn lemma_names_push(members: Seq<String>, m: String, x: Seq<char>)
    requires
        names_view(members).contains(x),
    ensures
        names_view(members.push(m)).contains(x),
{
    let w = choose|w: int| 0 <= w < names_view(members).len() && names_view(members)[w] == x;
    assert(names_view(members.push(m))[w] == x);
}

/// A step keeps the walk's invariant.
proof fn lemma_step_inv(schema: CompiledSchema, head: Seq<char>, w: Walk, owners: Seq<Seq<char>>) -> (owners2: Seq<Seq<char>>)
    requires
        walk_inv(schema, head, w, owners),
        w.frames.len() > 0,
    ensures
        walk_inv(schema, head, walk_step(schema, w), owners2),
{
    let n = walk_step(schema, w);
    let l = w.frames.len() - 1;
    let top = w.frames.last();
    if top.len() == 0 {
        let o2 = owners.drop_last();
        assert forall|j: int, t: int|
            0 <= j < n.visited.len() && 0 <= t < direct_of(schema, n.visited[j]).len() implies covered(
            n,
            #[trigger] direct_of(schema, n.visited[j])[t]@,
        ) by {
            let x = direct_of(schema, n.visited[j])[t]@;
            assert(covered(w, x));
            if in_frames(w.frames, x) && !names_view(w.members).contains(x) {
                let (i, s) = choose|i: int, s: int|
                    0 <= i < w.frames.len() && 0 <= s < w.frames[i].len() && #[trigger] w.frames[i][s]@ == x;
                assert(n.frames[i] == w.frames[i]);
                assert(n.frames[i][s]@ == x);
            }
        }
        assert forall|i: int, t: int|
            0 <= i < n.frames.len() && 0 <= t < n.frames[i].len() implies names_view(
            direct_of(schema, o2[i]),
        ).contains(#[trigger] n.frames[i][t]@) by {
            assert(n.frames[i] == w.frames[i]);
            assert(o2[i] == owners[i]);
        }
        assert forall|i: int| 0 <= i < o2.len() implies #[trigger] o2[i] == head || names_view(n.members).contains(o2[i]) by {
            assert(o2[i] == owners[i]);
        }
        o2
    } else {
        let m = top[0];
        let o = owners[l];
        assert(w.frames[l][0] == m);
        assert(names_view(direct_of(schema, o)).contains(m@));
        let members = n.members;
        let listed_before = names_view(w.members).contains(m@);
        // the listed names grow, and now include m
        assert(forall|x: Seq<char>| names_view(w.members).contains(x) ==> #[trigger] names_view(members).contains(x)) by {
            assert forall|x: Seq<char>| names_view(w.members).contains(x) implies #[trigger] names_view(members).contains(x) by {
                if !listed_before {
                    lemma_names_push(w.members, m, x);
                }
            }
        }
        assert(names_view(members).contains(m@)) by {
            if !listed_before {
                assert(names_view(members)[w.members.len() as int] == m@);
            }
        }
        assert(forall|k: int| 0 <= k < w.members.len() ==> #[trigger] members[k] == w.members[k]);
        // distinct
        assert(distinct_names(members)) by {
            if !listed_before {
                assert forall|i: int, j: int| 0 <= i < j < members.len() implies #[trigger] members[i]@ != #[trigger] members[j]@ by {
                    if j == w.members.len() {
                        assert(names_view(w.members)[i] == w.members[i]@);
                    }
                }
            }
        }
        // found_from
        assert forall|k: int| 0 <= k < members.len() implies #[trigger] found_from(schema, head, members, k) by {
            if k < w.members.len() {
                assert(found_from(schema, head, w.members, k));
                if !names_view(direct_members(schema, name_variants(schema, head))).contains(w.members[k]@) {
                    let j = choose|j: int|
                        0 <= j < k && names_view(direct_members(schema, name_variants(schema, #[trigger] w.members[j]@))).contains(
                            w.members[k]@,
                        );
                    assert(members[j] == w.members[j]);
                }
            } else {
                assert(members[k] == m);
                if o != head {
                    assert(owners[l] == head || names_view(w.members).contains(owners[l]));
                    let j = choose|j: int| 0 <= j < names_view(w.members).len() && names_view(w.members)[j] == o;
                    assert(members[j]@ == o);
                }
            }
        }
        let rest = w.frames.drop_last().push(top.drop_first());
        // what was to be taken is still to be taken, except m, now listed
        assert(forall|x: Seq<char>| in_frames(w.frames, x) ==> #[trigger] names_view(members).contains(x) || in_frames(rest, x)) by {
            assert forall|x: Seq<char>| in_frames(w.frames, x) implies #[trigger] names_view(members).contains(x) || in_frames(rest, x) by {
                let (i, s) = choose|i: int, s: int|
                    0 <= i < w.frames.len() && 0 <= s < w.frames[i].len() && #[trigger] w.frames[i][s]@ == x;
                if i < l {
                    assert(rest[i] == w.frames[i]);
                    assert(rest[i][s]@ == x);
                } else if s > 0 {
                    assert(rest[l][s - 1] == w.frames[l][s]);
                    assert(rest[l][s - 1]@ == x);
                }
            }
        }
        if w.visited.contains(m@) {
            let o2 = owners;
            assert(n.frames == rest);
            assert forall|k: int| 0 <= k < members.len() implies n.visited.contains(#[trigger] members[k]@) by {
                if k < w.members.len() {
                    assert(w.visited.contains(w.members[k]@));
                }
            }
            assert forall|j: int| 0 <= j < n.visited.len() implies #[trigger] n.visited[j] == head || names_view(
                members,
            ).contains(n.visited[j]) by {
                assert(w.visited[j] == head || names_view(w.members).contains(w.visited[j]));
            }
            assert forall|j: int, t: int|
                0 <= j < n.visited.len() && 0 <= t < direct_of(schema, n.visited[j]).len() implies covered(
                n,
                #[trigger] direct_of(schema, n.visited[j])[t]@,
            ) by {
                let x = direct_of(schema, n.visited[j])[t]@;
                assert(covered(w, x));
            }
            assert forall|i: int, t: int|
                0 <= i < n.frames.len() && 0 <= t < n.frames[i].len() implies names_view(
                direct_of(schema, o2[i]),
            ).contains(#[trigger] n.frames[i][t]@) by {
                if i < l {
                    assert(n.frames[i] == w.frames[i]);
                } else {
                    assert(n.frames[i][t] == w.frames[l][t + 1]);
                }
            }
            assert forall|i: int| 0 <= i < o2.len() implies #[trigger] o2[i] == head || names_view(members).contains(o2[i]) by {
                assert(owners[i] == head || names_view(w.members).contains(owners[i]));
            }
            o2
        } else {
            let o2 = owners.push(m@);
            let d = direct_of(schema, m@);
            assert(n.frames == rest.push(d));
            assert(n.visited == w.visited.push(m@));
            assert(forall|x: Seq<char>| in_frames(rest, x) ==> #[trigger] in_frames(n.frames, x)) by {
                assert forall|x: Seq<char>| in_frames(rest, x) implies #[trigger] in_frames(n.frames, x) by {
                    let (i, s) = choose|i: int, s: int|
                        0 <= i < rest.len() && 0 <= s < rest[i].len() && #[trigger] rest[i][s]@ == x;
                    assert(n.frames[i] == rest[i]);
                    assert(n.frames[i][s]@ == x);
                }
            }
            assert(forall|x: Seq<char>| w.visited.contains(x) ==> #[trigger] n.visited.contains(x)) by {
                assert forall|x: Seq<char>| w.visited.contains(x) implies #[trigger] n.visited.contains(x) by {
                    let j = choose|j: int| 0 <= j < w.visited.len() && w.visited[j] == x;
                    assert(n.visited[j] == x);
                }
            }
            assert(n.visited[w.visited.len() as int] == m@);
            assert forall|k: int| 0 <= k < members.len() implies n.visited.contains(#[trigger] members[k]@) by {
                if k < w.members.len() {
                    assert(w.visited.contains(w.members[k]@));
                }
            }
            assert forall|j: int| 0 <= j < n.visited.len() implies #[trigger] n.visited[j] == head || names_view(
                members,
            ).contains(n.visited[j]) by {
                if j < w.visited.len() {
                    assert(n.visited[j] == w.visited[j]);
                    assert(w.visited[j] == head || names_view(w.members).contains(w.visited[j]));
                }
            }
            assert forall|j: int, t: int|
                0 <= j < n.visited.len() && 0 <= t < direct_of(schema, n.visited[j]).len() implies covered(
                n,
                #[trigger] direct_of(schema, n.visited[j])[t]@,
            ) by {
                let x = direct_of(schema, n.visited[j])[t]@;
                if j < w.visited.len() {
                    assert(n.visited[j] == w.visited[j]);
                    assert(covered(w, x));
                } else {
                    assert(n.frames[n.frames.len() - 1] == d);
                    assert(n.frames[n.frames.len() - 1][t]@ == x);
                }
            }
            assert forall|i: int, t: int|
                0 <= i < n.frames.len() && 0 <= t < n.frames[i].len() implies names_view(
                direct_of(schema, o2[i]),
            ).contains(#[trigger] n.frames[i][t]@) by {
                if i < l {
                    assert(n.frames[i] == w.frames[i]);
                    assert(o2[i] == owners[i]);
                } else if i == l {
                    assert(n.frames[i][t] == w.frames[l][t + 1]);
                    assert(o2[i] == owners[i]);
                } else {
                    assert(n.frames[i] == d);
                    assert(o2[i] == m@);
                    assert(names_view(d)[t] == d[t]@);
                }
            }
            assert forall|i: int| 0 <= i < o2.len() implies #[trigger] o2[i] == head || names_view(members).contains(o2[i]) by {
                if i < owners.len() {
                    assert(o2[i] == owners[i]);
                    assert(owners[i] == head || names_view(w.members).contains(owners[i]));
                }
            }
            o2
        }
    }
}

/// Running the walk to its end from a state that keeps the invariant gives
/// a list of distinct names, each found from the head or an earlier
/// member, that holds every direct member of each entered name.
proof fn lemma_walk_closed(schema: CompiledSchema, head: Seq<char>, w: Walk, owners: Seq<Seq<char>>)
    requires
        walk_ok(schema, w),
        walk_inv(schema, head, w, owners),
    ensures
        ({
            let r = walk(schema, w);
            &&& distinct_names(r)
            &&& forall|k: int| 0 <= k < r.len() ==> #[trigger] found_from(schema, head, r, k)
            &&& listed(r, direct_of(schema, head))
            &&& forall|k: int| 0 <= k < r.len() ==> listed(r, #[trigger] direct_of(schema, r[k]@))
        }),
    decreases unvisited(all_members(schema.substitution_groups.entries@), w.visited),
        pending(w.frames),
        w.frames.len(),
{
    if w.frames.len() == 0 {
        let r = w.members;
        assert(r == walk(schema, w));
        assert forall|j: int, t: int|
            0 <= j < w.visited.len() && 0 <= t < direct_of(schema, w.visited[j]).len() implies names_view(r).contains(
            #[trigger] direct_of(schema, w.visited[j])[t]@,
        ) by {
            assert(covered(w, direct_of(schema, w.visited[j])[t]@));
        }
        let hj = choose|j: int| 0 <= j < w.visited.len() && w.visited[j] == head;
        assert forall|t: int| 0 <= t < direct_of(schema, head).len() implies names_view(r).contains(
            #[trigger] direct_of(schema, head)[t]@,
        ) by {
            assert(direct_of(schema, w.visited[hj])[t]@ == direct_of(schema, head)[t]@);
        }
        assert forall|k: int| 0 <= k < r.len() implies listed(r, #[trigger] direct_of(schema, r[k]@)) by {
            assert(w.visited.contains(r[k]@));
            let j = choose|j: int| 0 <= j < w.visited.len() && w.visited[j] == r[k]@;
            assert forall|t: int| 0 <= t < direct_of(schema, r[k]@).len() implies names_view(r).contains(
                #[trigger] direct_of(schema, r[k]@)[t]@,
            ) by {
                assert(direct_of(schema, w.visited[j])[t]@ == direct_of(schema, r[k]@)[t]@);
            }
        }
    } else {
        lemma_step_decreases(schema, w);
        lemma_step_ok(schema, w);
        let o2 = lemma_step_inv(schema, head, w, owners);
        lemma_walk_closed(schema, head, walk_step(schema, w), o2);
        assert(walk(schema, w) == walk(schema, walk_step(schema, w)));
    }
}

/// The transitive members of a substitution group are each listed once;
/// each was found as a direct member of the head or of a member listed
/// before it; and the list is closed: it holds every direct member of the
/// head and of each listed member, under every name they are looked up
/// under.
pub proof fn law_substitution_members_closed(schema: CompiledSchema, head: Seq<char>)
    ensures
        distinct_names(members_list(schema, head)),
        forall|k: int|
            0 <= k < members_list(schema, head).len() ==> #[trigger] found_from(
                schema,
                head,
                members_list(schema, head),
                k,
            ),
        listed(members_list(schema, head), direct_members(schema, name_variants(schema, head))),
        forall|k: int|
            0 <= k < members_list(schema, head).len() ==> listed(
                members_list(schema, head),
                #[trigger] direct_members(schema, name_variants(schema, members_list(schema, head)[k]@)),
            ),
{
    let w = start_walk(schema, head);
    let owners = seq![head];
    lemma_start_ok(schema, head);
    assert(w.visited[0] == head);
    assert(distinct_names(w.members));
    assert forall|j: int, t: int|
        0 <= j < w.visited.len() && 0 <= t < direct_of(schema, w.visited[j]).len() implies covered(
        w,
        #[trigger] direct_of(schema, w.visited[j])[t]@,
    ) by {
        assert(w.frames[0] == direct_of(schema, head));
        assert(w.frames[0][t]@ == direct_of(schema, w.visited[j])[t]@);
    }
    assert forall|i: int, t: int|
        0 <= i < w.frames.len() && 0 <= t < w.frames[i].len() implies names_view(
        direct_of(schema, owners[i]),
    ).contains(#[trigger] w.frames[i][t]@) by {
        assert(names_view(direct_of(schema, head))[t] == w.frames[i][t]@);
    }
    lemma_walk_closed(schema, head, w, owners);
    let r = members_list(schema, head);
    assert forall|k: int| 0 <= k < r.len() implies listed(
        r,
        #[trigger] direct_members(schema, name_variants(schema, r[k]@)),
    ) by {
        assert(listed(r, direct_of(schema, r[k]@)));
    }
}

} // verus!
