//! Arranging the rows of an answer in two levels: by cinema and then by
//! film, or the other way round.

use crate::catalog::labelled;
use crate::catalog::last_word;
use crate::query::{ascending, QueryResult};
use vstd::prelude::*;

verus! {

/// The entity that the outer level of a grouping goes by.
#[derive(Clone, Copy, Debug, PartialEq, Eq, Structural)]
pub enum GroupBy {
    Cinema,
    Film,
}

/// The rows of one outer and one inner entity.
#[derive(Debug)]
pub struct Leaf {
    pub id: u64,
    pub description: String,
    pub results: Vec<QueryResult>,
}

/// The leaves of one outer entity.
#[derive(Debug)]
pub struct Group {
    pub id: u64,
    pub description: String,
    pub members: Vec<Leaf>,
}

impl GroupBy {
    /// The other axis.
    pub open spec fn flipped(self) -> GroupBy {
        match self {
            GroupBy::Cinema => GroupBy::Film,
            GroupBy::Film => GroupBy::Cinema,
        }
    }

    /// The identifier by which this axis files a row.
    pub open spec fn key(self, row: QueryResult) -> u64 {
        match self {
            GroupBy::Cinema => row.cinema.id,
            GroupBy::Film => row.film.id,
        }
    }

    /// The heading that this axis gives the entity of a row.
    pub open spec fn heading(self, row: QueryResult) -> Seq<char> {
        match self {
            GroupBy::Cinema => labelled(row.cinema.name@, last_word(row.cinema.address@)),
            GroupBy::Film => labelled(row.film.name@, row.film.release_date@),
        }
    }

    /// The other axis.
    pub fn flip(&self) -> (other: GroupBy)
        ensures
            other == self.flipped(),
    {
        match self {
            GroupBy::Cinema => GroupBy::Film,
            GroupBy::Film => GroupBy::Cinema,
        }
    }

    /// The identifier by which this axis files a row.
    pub fn key_of(&self, row: &QueryResult) -> (id: u64)
        ensures
            id == self.key(*row),
    {
        match self {
            GroupBy::Cinema => row.cinema.id,
            GroupBy::Film => row.film.id,
        }
    }

    /// The heading that this axis gives the entity of a row.
    pub fn heading_of(&self, row: &QueryResult) -> (text: String)
        ensures
            text@ == self.heading(*row),
    {
        match self {
            GroupBy::Cinema => row.cinema.description(),
            GroupBy::Film => row.film.description(),
        }
    }

    /// Whether a row belongs under outer entity `outer` and, where one is
    /// named, inner entity `inner`.
    pub open spec fn files_under(self, row: QueryResult, outer: u64, inner: Option<u64>) -> bool {
        self.key(row) == outer && (inner matches Some(b) ==> self.flipped().key(row) == b)
    }

    /// Decides whether a row belongs under `outer` and, where named, `inner`.
    pub fn is_filed_under(&self, row: &QueryResult, outer: u64, inner: Option<u64>) -> (yes: bool)
        ensures
            yes == self.files_under(*row, outer, inner),
    {
        self.key_of(row) == outer && match inner {
            Some(b) => self.flip().key_of(row) == b,
            None => true,
        }
    }
}

/// The rows filed under `outer` (and `inner`), in their order.
pub open spec fn members_of(
    rows: Seq<QueryResult>,
    axis: GroupBy,
    outer: u64,
    inner: Option<u64>,
) -> Seq<QueryResult>
    decreases rows.len(),
{
    if rows.len() == 0 {
        Seq::empty()
    } else {
        let rest = members_of(rows.drop_last(), axis, outer, inner);
        if axis.files_under(rows.last(), outer, inner) {
            rest.push(rows.last())
        } else {
            rest
        }
    }
}

/// Whether one of the first `n` rows is filed by `axis` under `id`.
pub open spec fn occurs_before(rows: Seq<QueryResult>, axis: GroupBy, n: int, id: u64) -> bool {
    exists|k: int| 0 <= k < n && k < rows.len() && axis.key(#[trigger] rows[k]) == id
}

/// Whether some row is filed by `axis` under `id`.
pub open spec fn occurs(rows: Seq<QueryResult>, axis: GroupBy, id: u64) -> bool {
    occurs_before(rows, axis, rows.len() as int, id)
}

/// Each identifier is below the next.
pub open spec fn strictly_ascending(ids: Seq<u64>) -> bool {
    forall|i: int, j: int| 0 <= i < j < ids.len() ==> ids[i] < ids[j]
}

/// The identifiers of the groups, in order.
pub open spec fn group_ids(groups: Seq<Group>) -> Seq<u64> {
    Seq::new(groups.len(), |i: int| groups[i].id)
}

/// The identifiers of the leaves, in order.
pub open spec fn leaf_ids(leaves: Seq<Leaf>) -> Seq<u64> {
    Seq::new(leaves.len(), |i: int| leaves[i].id)
}

/// `leaf` holds the rows of `rows` filed under `outer` and its own
/// identifier, in their order, under the heading of the first of them.
pub open spec fn is_leaf(rows: Seq<QueryResult>, axis: GroupBy, outer: u64, leaf: Leaf) -> bool {
    &&& leaf.results@ == members_of(rows, axis, outer, Some(leaf.id))
    &&& leaf.results@.len() > 0
    &&& leaf.description@ == axis.flipped().heading(leaf.results@[0])
}

/// `group` holds, under the heading of the first row filed under it, one
/// leaf for each inner entity that occurs among its rows, by ascending
/// identifier.
pub open spec fn is_group(rows: Seq<QueryResult>, axis: GroupBy, group: Group) -> bool {
    let part = members_of(rows, axis, group.id, None);
    &&& part.len() > 0
    &&& group.description@ == axis.heading(part[0])
    &&& strictly_ascending(leaf_ids(group.members@))
    &&& forall|id: u64| #[trigger]
        leaf_ids(group.members@).contains(id) <==> occurs(part, axis.flipped(), id)
    &&& forall|j: int|
        0 <= j < group.members@.len() ==> is_leaf(rows, axis, group.id, #[trigger] group.members@[j])
}

/// `groups` is the two-level arrangement of `rows` along `axis`: one group
/// for each outer entity that occurs, by ascending identifier.
pub open spec fn is_grouping(rows: Seq<QueryResult>, axis: GroupBy, groups: Seq<Group>) -> bool {
    &&& strictly_ascending(group_ids(groups))
    &&& forall|id: u64| #[trigger] group_ids(groups).contains(id) <==> occurs(rows, axis, id)
    &&& forall|i: int| 0 <= i < groups.len() ==> is_group(rows, axis, #[trigger] groups[i])
}

/// Whether some leaf of `groups` holds `row`.
pub open spec fn grouping_holds(groups: Seq<Group>, row: QueryResult) -> bool {
    exists|i: int, j: int|
        0 <= i < groups.len() && 0 <= j < groups[i].members@.len() && (
        #[trigger] groups[i].members@[j]).results@.contains(row)
}

/// A row is filed under `outer` (and `inner`) exactly if it is a row that
/// belongs there.
pub proof fn lemma_members_of(rows: Seq<QueryResult>, axis: GroupBy, outer: u64, inner: Option<u64>)
    ensures
        forall|r: QueryResult|
            #[trigger] members_of(rows, axis, outer, inner).contains(r) <==> rows.contains(r)
                && axis.files_under(r, outer, inner),
    decreases rows.len(),
{
    let kept = members_of(rows, axis, outer, inner);
    if rows.len() > 0 {
        let front = rows.drop_last();
        let rest = members_of(front, axis, outer, inner);
        lemma_members_of(front, axis, outer, inner);
        assert forall|r: QueryResult| #[trigger]
            kept.contains(r) <==> rows.contains(r) && axis.files_under(r, outer, inner) by {
            if kept.contains(r) {
                let i = choose|i: int| 0 <= i < kept.len() && kept[i] == r;
                if i < rest.len() {
                    assert(rest.contains(r));
                    let k = choose|k: int| 0 <= k < front.len() && front[k] == r;
                    assert(rows[k] == r);
                } else {
                    assert(rows[rows.len() - 1] == r);
                }
            }
            if rows.contains(r) && axis.files_under(r, outer, inner) {
                let k = choose|k: int| 0 <= k < rows.len() && rows[k] == r;
                if k < rows.len() - 1 {
                    assert(front[k] == r);
                    assert(rest.contains(r));
                    let i = choose|i: int| 0 <= i < rest.len() && rest[i] == r;
                    assert(kept[i] == r);
                } else {
                    assert(kept[kept.len() - 1] == r);
                }
            }
        }
    }
}

/// Filing keeps the order of the answer: of rows in time order, the rows
/// filed under one entity are in time order too.
pub proof fn lemma_members_keep_time_order(
    rows: Seq<QueryResult>,
    axis: GroupBy,
    outer: u64,
    inner: Option<u64>,
)
    requires
        ascending(rows),
    ensures
        ascending(members_of(rows, axis, outer, inner)),
    decreases rows.len(),
{
    if rows.len() > 0 {
        let front = rows.drop_last();
        let rest = members_of(front, axis, outer, inner);
        let kept = members_of(rows, axis, outer, inner);
        assert forall|i: int, j: int| 0 <= i < j < front.len() implies (#[trigger] front[i])
            .seance.datetime.at_most((#[trigger] front[j]).seance.datetime) by {
            assert(rows[i].seance.datetime.at_most(rows[j].seance.datetime));
        }
        lemma_members_keep_time_order(front, axis, outer, inner);
        lemma_members_of(front, axis, outer, inner);
        assert forall|i: int, j: int| 0 <= i < j < kept.len() implies (#[trigger] kept[i])
            .seance.datetime.at_most((#[trigger] kept[j]).seance.datetime) by {
            if j < rest.len() {
                assert(rest[i].seance.datetime.at_most(rest[j].seance.datetime));
            } else {
                assert(rest.contains(rest[i]));
                assert(front.contains(rest[i]));
                let k = choose|k: int| 0 <= k < front.len() && front[k] == rest[i];
                assert(rows[k].seance.datetime.at_most(rows[rows.len() - 1].seance.datetime));
            }
        }
    }
}

/// The rows filed under `outer` (and `inner`).
pub fn collect(rows: &Vec<QueryResult>, axis: GroupBy, outer: u64, inner: Option<u64>) -> (part:
    Vec<QueryResult>)
    ensures
        part@ == members_of(rows@, axis, outer, inner),
{
    let mut part: Vec<QueryResult> = Vec::new();
    let mut i: usize = 0;
    while i < rows.len()
        invariant
            i <= rows@.len(),
            part@ == members_of(rows@.take(i as int), axis, outer, inner),
        decreases rows@.len() - i,
    {
        proof {
            assert(rows@.take(i + 1).drop_last() =~= rows@.take(i as int));
        }
        if axis.is_filed_under(&rows[i], outer, inner) {
            part.push(rows[i].duplicate());
        }
        i += 1;
    }
    proof {
        assert(rows@.take(rows@.len() as int) =~= rows@);
    }
    part
}

/// Files `id` among ascending identifiers, unless it is there already.
pub fn note_id(ids: &mut Vec<u64>, id: u64)
    requires
        strictly_ascending(old(ids)@),
    ensures
        strictly_ascending(final(ids)@),
        forall|x: u64| #[trigger] final(ids)@.contains(x) <==> old(ids)@.contains(x) || x == id,
{
    let ghost before = ids@;
    let mut p: usize = 0;
    while p < ids.len() && ids[p] < id
        invariant
            p <= ids@.len(),
            ids@ == before,
            forall|k: int| 0 <= k < p ==> before[k] < id,
        decreases ids@.len() - p,
    {
        p += 1;
    }
    if p < ids.len() && ids[p] == id {
        assert(before.contains(id));
    } else {
        ids.insert(p, id);
        proof {
            let after = ids@;
            before.insert_ensures(p as int, id);
            assert forall|i: int, j: int| 0 <= i < j < after.len() implies after[i] < after[j] by {
                if j < p {
                    assert(before[i] < before[j]);
                } else if j == p {
                } else if i < p {
                    assert(before[i] < id);
                    if p < j - 1 {
                        assert(before[p as int] < before[j - 1]);
                    }
                } else if i == p {
                    if p < j - 1 {
                        assert(before[p as int] < before[j - 1]);
                    }
                } else {
                    assert(before[i - 1] < before[j - 1]);
                }
            }
            assert forall|x: u64| #[trigger] after.contains(x) <==> before.contains(x) || x == id by {
                if after.contains(x) {
                    let k = choose|k: int| 0 <= k < after.len() && after[k] == x;
                    if k < p {
                        assert(before[k] == x);
                    } else if k > p {
                        assert(before[k - 1] == x);
                    }
                }
                if x == id {
                    assert(after[p as int] == x);
                } else if before.contains(x) {
                    let k = choose|k: int| 0 <= k < before.len() && before[k] == x;
                    if k < p {
                        assert(after[k] == x);
                    } else {
                        assert(after[k + 1] == x);
                    }
                }
            }
        }
    }
}

/// The identifiers under which `axis` files the rows, each once, in
/// ascending order.
pub fn key_list(rows: &Vec<QueryResult>, axis: GroupBy) -> (ids: Vec<u64>)
    ensures
        strictly_ascending(ids@),
        forall|x: u64| #[trigger] ids@.contains(x) <==> occurs(rows@, axis, x),
{
    let mut ids: Vec<u64> = Vec::new();
    let mut i: usize = 0;
    while i < rows.len()
        invariant
            i <= rows@.len(),
            strictly_ascending(ids@),
            forall|x: u64| #[trigger] ids@.contains(x) <==> occurs_before(rows@, axis, i as int, x),
        decreases rows@.len() - i,
    {
        let ghost earlier = ids@;
        let id = axis.key_of(&rows[i]);
        note_id(&mut ids, id);
        proof {
            assert forall|x: u64| #[trigger]
                ids@.contains(x) <==> occurs_before(rows@, axis, i + 1, x) by {
                if occurs_before(rows@, axis, i + 1, x) {
                    let k = choose|k: int|
                        0 <= k < i + 1 && k < rows@.len() && axis.key(#[trigger] rows@[k]) == x;
                    if k < i {
                        assert(occurs_before(rows@, axis, i as int, x));
                    }
                }
                if earlier.contains(x) {
                    assert(occurs_before(rows@, axis, i as int, x));
                }
                if x == id {
                    assert(axis.key(rows@[i as int]) == x);
                }
            }
        }
        i += 1;
    }
    ids
}

/// The group of the rows filed under `outer`.
pub fn group_of(rows: &Vec<QueryResult>, axis: GroupBy, outer: u64) -> (group: Group)
    requires
        occurs(rows@, axis, outer),
    ensures
        group.id == outer,
        is_group(rows@, axis, group),
{
    let part = collect(rows, axis, outer, None);
    proof {
        let k = choose|k: int| 0 <= k < rows@.len() && axis.key(#[trigger] rows@[k]) == outer;
        lemma_members_of(rows@, axis, outer, None);
        assert(rows@.contains(rows@[k]));
        assert(part@.contains(rows@[k]));
    }
    let description = axis.heading_of(&part[0]);
    let inner = key_list(&part, axis.flip());
    let mut members: Vec<Leaf> = Vec::new();
    let mut j: usize = 0;
    while j < inner.len()
        invariant
            j <= inner@.len(),
            members@.len() == j,
            part@ == members_of(rows@, axis, outer, None),
            forall|x: u64| #[trigger] inner@.contains(x) <==> occurs(part@, axis.flipped(), x),
            forall|k: int| 0 <= k < j ==> (#[trigger] members@[k]).id == inner@[k],
            forall|k: int| 0 <= k < j ==> is_leaf(rows@, axis, outer, #[trigger] members@[k]),
        decreases inner@.len() - j,
    {
        let id = inner[j];
        let results = collect(rows, axis, outer, Some(id));
        proof {
            assert(inner@.contains(id));
            let k = choose|k: int|
                0 <= k < part@.len() && axis.flipped().key(#[trigger] part@[k]) == id;
            lemma_members_of(rows@, axis, outer, None);
            lemma_members_of(rows@, axis, outer, Some(id));
            assert(part@.contains(part@[k]));
            assert(results@.contains(part@[k]));
        }
        let heading = axis.flip().heading_of(&results[0]);
        members.push(Leaf { id, description: heading, results });
        j += 1;
    }
    proof {
        assert(leaf_ids(members@) =~= inner@);
    }
    Group { id: outer, description, members }
}

/// Arranges the rows of an answer in two levels along `axis`. Groups and
/// leaves come by ascending identifier; each leaf keeps the order of the
/// answer.
pub fn group(rows: &Vec<QueryResult>, axis: GroupBy) -> (groups: Vec<Group>)
    ensures
        is_grouping(rows@, axis, groups@),
{
    let ids = key_list(rows, axis);
    let mut groups: Vec<Group> = Vec::new();
    let mut i: usize = 0;
    while i < ids.len()
        invariant
            i <= ids@.len(),
            groups@.len() == i,
            forall|x: u64| #[trigger] ids@.contains(x) <==> occurs(rows@, axis, x),
            forall|k: int| 0 <= k < i ==> (#[trigger] groups@[k]).id == ids@[k],
            forall|k: int| 0 <= k < i ==> is_group(rows@, axis, #[trigger] groups@[k]),
        decreases ids@.len() - i,
    {
        proof {
            assert(ids@.contains(ids@[i as int]));
        }
        let next = group_of(rows, axis, ids[i]);
        groups.push(next);
        i += 1;
    }
    proof {
        assert(group_ids(groups@) =~= ids@);
    }
    groups
}

/// The rows of the first `n` leaves, leaf after leaf.
pub open spec fn leaf_rows(leaves: Seq<Leaf>, n: int) -> Seq<QueryResult>
    decreases n,
{
    if n <= 0 {
        Seq::empty()
    } else {
        leaf_rows(leaves, n - 1) + leaves[n - 1].results@
    }
}

/// The rows of the first `n` groups, group after group.
pub open spec fn group_rows(groups: Seq<Group>, n: int) -> Seq<QueryResult>
    decreases n,
{
    if n <= 0 {
        Seq::empty()
    } else {
        group_rows(groups, n - 1) + leaf_rows(
            groups[n - 1].members@,
            groups[n - 1].members@.len() as int,
        )
    }
}

/// The rows of a grouping in the order in which it shows them.
pub open spec fn flattened(groups: Seq<Group>) -> Seq<QueryResult> {
    group_rows(groups, groups.len() as int)
}

/// The rows of a grouping, group after group and leaf after leaf.
pub fn flatten(groups: &Vec<Group>) -> (rows: Vec<QueryResult>)
    ensures
        rows@ == flattened(groups@),
        forall|r: QueryResult| #[trigger] rows@.contains(r) <==> grouping_holds(groups@, r),
{
    let mut rows: Vec<QueryResult> = Vec::new();
    let mut i: usize = 0;
    while i < groups.len()
        invariant
            i <= groups@.len(),
            rows@ == group_rows(groups@, i as int),
            forall|r: QueryResult| #[trigger]
                rows@.contains(r) <==> grouping_holds(groups@.take(i as int), r),
        decreases groups@.len() - i,
    {
        let ghost done = rows@;
        let group = &groups[i];
        let mut j: usize = 0;
        proof {
            assert(rows@ =~= done + leaf_rows(group.members@, 0));
        }
        while j < group.members.len()
            invariant
                j <= group.members@.len(),
                rows@ == done + leaf_rows(group.members@, j as int),
                forall|r: QueryResult| #[trigger]
                    rows@.contains(r) <==> done.contains(r) || exists|b: int|
                        0 <= b < j && (#[trigger] group.members@[b]).results@.contains(r),
            decreases group.members@.len() - j,
        {
            let ghost filed = rows@;
            let leaf = &group.members[j];
            let mut k: usize = 0;
            proof {
                assert(rows@ =~= filed + leaf.results@.take(0));
            }
            while k < leaf.results.len()
                invariant
                    k <= leaf.results@.len(),
                    rows@ == filed + leaf.results@.take(k as int),
                    forall|r: QueryResult| #[trigger]
                        rows@.contains(r) <==> filed.contains(r) || leaf.results@.take(
                            k as int,
                        ).contains(r),
                decreases leaf.results@.len() - k,
            {
                let ghost held = rows@;
                rows.push(leaf.results[k].duplicate());
                proof {
                    let row = leaf.results@[k as int];
                    let seen = leaf.results@.take(k as int);
                    let next = leaf.results@.take(k + 1);
                    assert(next =~= seen.push(row));
                    assert(rows@ =~= filed + next);
                    assert forall|r: QueryResult| #[trigger]
                        rows@.contains(r) <==> filed.contains(r) || next.contains(r) by {
                        lemma_push_contains(held, row, r);
                        lemma_push_contains(seen, row, r);
                    }
                }
                k += 1;
            }
            proof {
                assert(leaf.results@.take(leaf.results@.len() as int) =~= leaf.results@);
                assert(rows@ =~= done + leaf_rows(group.members@, j + 1));
                assert forall|r: QueryResult| #[trigger]
                    rows@.contains(r) <==> done.contains(r) || exists|b: int|
                        0 <= b < j + 1 && (#[trigger] group.members@[b]).results@.contains(r) by {
                    if leaf.results@.contains(r) {
                        assert(group.members@[j as int].results@.contains(r));
                    }
                }
            }
            j += 1;
        }
        proof {
            let upto = groups@.take(i as int);
            let with = groups@.take(i + 1);
            assert forall|r: QueryResult| #[trigger]
                rows@.contains(r) <==> grouping_holds(with, r) by {
                if grouping_holds(upto, r) {
                    let (a, b) = choose|a: int, b: int|
                        0 <= a < upto.len() && 0 <= b < upto[a].members@.len() && (
                        #[trigger] upto[a].members@[b]).results@.contains(r);
                    assert(with[a].members@[b].results@.contains(r));
                }
                if exists|b: int|
                    0 <= b < group.members@.len() && (#[trigger] group.members@[b]).results@.contains(
                        r,
                    ) {
                    let b = choose|b: int|
                        0 <= b < group.members@.len() && (
                        #[trigger] group.members@[b]).results@.contains(r);
                    assert(with[i as int].members@[b].results@.contains(r));
                }
                if grouping_holds(with, r) {
                    let (a, b) = choose|a: int, b: int|
                        0 <= a < with.len() && 0 <= b < with[a].members@.len() && (
                        #[trigger] with[a].members@[b]).results@.contains(r);
                    if a < i {
                        assert(upto[a].members@[b].results@.contains(r));
                    } else {
                        assert(group.members@[b].results@.contains(r));
                    }
                }
            }
        }
        i += 1;
    }
    proof {
        assert(groups@.take(groups@.len() as int) =~= groups@);
    }
    rows
}

proof fn lemma_push_contains(rows: Seq<QueryResult>, last: QueryResult, r: QueryResult)
    ensures
        rows.push(last).contains(r) <==> rows.contains(r) || r == last,
{
    let longer = rows.push(last);
    if rows.contains(r) {
        let k = choose|k: int| 0 <= k < rows.len() && rows[k] == r;
        assert(longer[k] == r);
    }
    if r == last {
        assert(longer[rows.len() as int] == r);
    }
}

/// A grouping holds exactly the rows that were grouped.
pub proof fn lemma_grouping_keeps_rows(
    rows: Seq<QueryResult>,
    axis: GroupBy,
    groups: Seq<Group>,
    row: QueryResult,
)
    requires
        is_grouping(rows, axis, groups),
    ensures
        grouping_holds(groups, row) <==> rows.contains(row),
{
    if grouping_holds(groups, row) {
        let (i, j) = choose|i: int, j: int|
            0 <= i < groups.len() && 0 <= j < groups[i].members@.len() && (
            #[trigger] groups[i].members@[j]).results@.contains(row);
        assert(is_group(rows, axis, groups[i]));
        assert(is_leaf(rows, axis, groups[i].id, groups[i].members@[j]));
        lemma_members_of(rows, axis, groups[i].id, Some(groups[i].members@[j].id));
    }
    if rows.contains(row) {
        let k = choose|k: int| 0 <= k < rows.len() && rows[k] == row;
        let outer = axis.key(row);
        let inner = axis.flipped().key(row);
        assert(axis.key(rows[k]) == outer);
        assert(occurs(rows, axis, outer));
        assert(group_ids(groups).contains(outer));
        let i = choose|i: int| 0 <= i < group_ids(groups).len() && group_ids(groups)[i] == outer;
        assert(is_group(rows, axis, groups[i]));
        let part = members_of(rows, axis, outer, None);
        lemma_members_of(rows, axis, outer, None);
        assert(part.contains(row));
        let m = choose|m: int| 0 <= m < part.len() && part[m] == row;
        assert(axis.flipped().key(part[m]) == inner);
        assert(occurs(part, axis.flipped(), inner));
        let ids = leaf_ids(groups[i].members@);
        assert(ids.contains(inner));
        let j = choose|j: int| 0 <= j < ids.len() && ids[j] == inner;
        assert(is_leaf(rows, axis, outer, groups[i].members@[j]));
        lemma_members_of(rows, axis, outer, Some(inner));
        assert(groups[i].members@[j].results@.contains(row));
    }
}

/// The rows that a grouping shows are the rows that its leaves hold.
pub proof fn lemma_flattened_rows(groups: Seq<Group>, row: QueryResult)
    ensures
        flattened(groups).contains(row) <==> grouping_holds(groups, row),
{
    lemma_group_rows(groups, groups.len() as int, row);
    if grouping_holds(groups, row) {
        let (i, j) = choose|i: int, j: int|
            0 <= i < groups.len() && 0 <= j < groups[i].members@.len() && (
            #[trigger] groups[i].members@[j]).results@.contains(row);
        assert(groups[i].members@[j].results@.contains(row));
    }
}

proof fn lemma_concat_contains(front: Seq<QueryResult>, back: Seq<QueryResult>, r: QueryResult)
    ensures
        (front + back).contains(r) <==> front.contains(r) || back.contains(r),
{
    let all = front + back;
    if front.contains(r) {
        let k = choose|k: int| 0 <= k < front.len() && front[k] == r;
        assert(all[k] == r);
    }
    if back.contains(r) {
        let k = choose|k: int| 0 <= k < back.len() && back[k] == r;
        assert(all[front.len() + k] == r);
    }
    if all.contains(r) {
        let k = choose|k: int| 0 <= k < all.len() && all[k] == r;
        if k < front.len() {
            assert(front[k] == r);
        } else {
            assert(back[k - front.len()] == r);
        }
    }
}

proof fn lemma_leaf_rows(leaves: Seq<Leaf>, n: int, r: QueryResult)
    requires
        0 <= n <= leaves.len(),
    ensures
        leaf_rows(leaves, n).contains(r) <==> exists|j: int|
            0 <= j < n && (#[trigger] leaves[j]).results@.contains(r),
    decreases n,
{
    if n > 0 {
        lemma_leaf_rows(leaves, n - 1, r);
        lemma_concat_contains(leaf_rows(leaves, n - 1), leaves[n - 1].results@, r);
        if leaves[n - 1].results@.contains(r) {
            assert(leaves[n - 1].results@.contains(r));
        }
    }
}

proof fn lemma_group_rows(groups: Seq<Group>, n: int, r: QueryResult)
    requires
        0 <= n <= groups.len(),
    ensures
        group_rows(groups, n).contains(r) <==> exists|i: int, j: int|
            0 <= i < n && 0 <= j < groups[i].members@.len() && (
            #[trigger] groups[i].members@[j]).results@.contains(r),
    decreases n,
{
    if n > 0 {
        let leaves = groups[n - 1].members@;
        lemma_group_rows(groups, n - 1, r);
        lemma_leaf_rows(leaves, leaves.len() as int, r);
        lemma_concat_contains(group_rows(groups, n - 1), leaf_rows(leaves, leaves.len() as int), r);
        if exists|j: int| 0 <= j < leaves.len() && (#[trigger] leaves[j]).results@.contains(r) {
            let j = choose|j: int| 0 <= j < leaves.len() && (#[trigger] leaves[j]).results@.contains(r);
            assert(groups[n - 1].members@[j].results@.contains(r));
        }
        if exists|i: int, j: int|
            0 <= i < n && 0 <= j < groups[i].members@.len() && (
            #[trigger] groups[i].members@[j]).results@.contains(r) {
            let (i, j) = choose|i: int, j: int|
                0 <= i < n && 0 <= j < groups[i].members@.len() && (
                #[trigger] groups[i].members@[j]).results@.contains(r);
            if i == n - 1 {
                assert(leaves[j].results@.contains(r));
            } else {
                assert(groups[i].members@[j].results@.contains(r));
            }
        }
    }
}

/// Grouping by cinema and then flattening gives the same rows as grouping
/// by film and then flattening: the rows that were grouped.
pub proof fn lemma_axes_flatten_alike(
    rows: Seq<QueryResult>,
    by_cinema: Seq<Group>,
    by_film: Seq<Group>,
    row: QueryResult,
)
    requires
        is_grouping(rows, GroupBy::Cinema, by_cinema),
        is_grouping(rows, GroupBy::Film, by_film),
    ensures
        flattened(by_cinema).contains(row) <==> rows.contains(row),
        flattened(by_film).contains(row) <==> rows.contains(row),
{
    lemma_flattened_rows(by_cinema, row);
    lemma_flattened_rows(by_film, row);
    lemma_grouping_keeps_rows(rows, GroupBy::Cinema, by_cinema, row);
    lemma_grouping_keeps_rows(rows, GroupBy::Film, by_film, row);
}

} // verus!
