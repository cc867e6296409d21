//! Searching a dataset for lines by a part of their name or of the name of
//! their operator.

use vstd::prelude::*;
use crate::model::{
    identity_lt, lemma_identity_irreflexive, lemma_identity_total, lemma_identity_transitive,
    strictly_ascending, Geo, LineIdentity, Record, TrainLine,
};
use crate::text::{chars_contain, chars_eq, chars_lt, contains_text, to_chars};

verus! {

/// The section `record` matches `query`: the name of its line, or the name
/// of its operator, contains the query. The empty query matches every
/// section.
pub open spec fn matches_query(record: Record, query: Seq<char>) -> bool {
    contains_text(record.identity.line, query) || contains_text(record.identity.company, query)
}

/// `id` is the line of a section of `records` that matches `query`.
pub open spec fn is_candidate(records: Seq<Record>, query: Seq<char>, id: LineIdentity) -> bool {
    exists|i: int|
        0 <= i < records.len() && matches_query(#[trigger] records[i], query) && records[i].identity
            == id
}

/// `list` is the answer to `query`: the lines of the matching sections, each
/// once, in ascending order.
pub open spec fn is_candidate_list(
    records: Seq<Record>,
    query: Seq<char>,
    list: Seq<LineIdentity>,
) -> bool {
    &&& strictly_ascending(list)
    &&& forall|id: LineIdentity| #[trigger] list.contains(id) <==> is_candidate(records, query, id)
}

/// The answer to `query`: the list that `is_candidate_list` describes.
/// There is one for every dataset and query, and no second one.
pub open spec fn candidates(records: Seq<Record>, query: Seq<char>) -> Seq<LineIdentity> {
    choose|list: Seq<LineIdentity>| is_candidate_list(records, query, list)
}

/// The views of a sequence of lines.
pub open spec fn line_views<'a>(lines: Seq<TrainLine<'a>>) -> Seq<LineIdentity> {
    lines.map_values(|line: TrainLine| line@)
}

/// One more section adds its own line to the candidates, if it matches, and
/// nothing else.
proof fn lemma_candidate_step(records: Seq<Record>, n: int, query: Seq<char>, id: LineIdentity)
    requires
        0 <= n < records.len(),
    ensures
        is_candidate(records.take(n + 1), query, id) <==> is_candidate(records.take(n), query, id)
            || (matches_query(records[n], query) && records[n].identity == id),
{
    let now = records.take(n + 1);
    if matches_query(records[n], query) && records[n].identity == id {
        assert(now[n] == records[n]);
    }
}

/// A line put where the order wants it keeps the list in order, and the
/// list then holds that line besides what it held.
proof fn lemma_insert_in_order(list: Seq<LineIdentity>, at: int, id: LineIdentity)
    requires
        strictly_ascending(list),
        0 <= at <= list.len(),
        forall|j: int| 0 <= j < at ==> identity_lt(#[trigger] list[j], id),
        forall|j: int| at <= j < list.len() ==> identity_lt(id, #[trigger] list[j]),
    ensures
        strictly_ascending(list.insert(at, id)),
        forall|x: LineIdentity| #[trigger]
            list.insert(at, id).contains(x) <==> list.contains(x) || x == id,
{
    let now = list.insert(at, id);
    assert(now[at] == id);
    assert forall|x: LineIdentity| #[trigger] now.contains(x) <==> list.contains(x) || x == id by {
        if list.contains(x) {
            let j = choose|j: int| 0 <= j < list.len() && list[j] == x;
            if j < at {
                assert(now[j] == x);
            } else {
                assert(now[j + 1] == x);
            }
        }
    }
}

/// Two lists in strictly ascending order with the same members are the same
/// list.
pub proof fn lemma_ascending_unique(a: Seq<LineIdentity>, b: Seq<LineIdentity>)
    requires
        strictly_ascending(a),
        strictly_ascending(b),
        forall|x: LineIdentity| a.contains(x) <==> b.contains(x),
    ensures
        a == b,
    decreases a.len(),
{
    if a.len() == 0 {
        if b.len() > 0 {
            assert(b.contains(b[0]));
        }
    } else {
        assert(a.contains(a.last()));
        assert(b.contains(b.last()));
        if a.last() != b.last() {
            lemma_identity_transitive(a.last(), b.last(), a.last());
            lemma_identity_irreflexive(a.last());
        }
        let a0 = a.drop_last();
        let b0 = b.drop_last();
        assert forall|x: LineIdentity| a0.contains(x) <==> b0.contains(x) by {
            if a0.contains(x) {
                assert(a.contains(x));
                let m = choose|m: int| 0 <= m < b.len() && b[m] == x;
                if m == b.len() - 1 {
                    lemma_identity_irreflexive(x);
                }
                assert(b0[m] == x);
            }
            if b0.contains(x) {
                assert(b.contains(x));
                let m = choose|m: int| 0 <= m < a.len() && a[m] == x;
                if m == a.len() - 1 {
                    lemma_identity_irreflexive(x);
                }
                assert(a0[m] == x);
            }
        }
        lemma_ascending_unique(a0, b0);
        assert(a =~= a0.push(a.last()));
    }
}

/// A line that is not in an ascending list has its place in it: behind all
/// that come before it, and before all that come behind it.
proof fn lemma_place_in_order(list: Seq<LineIdentity>, id: LineIdentity) -> (at: int)
    requires
        strictly_ascending(list),
        !list.contains(id),
    ensures
        0 <= at <= list.len(),
        forall|j: int| 0 <= j < at ==> identity_lt(#[trigger] list[j], id),
        forall|j: int| at <= j < list.len() ==> identity_lt(id, #[trigger] list[j]),
    decreases list.len(),
{
    if list.len() == 0 {
        0
    } else {
        let last = list.last();
        lemma_identity_total(last, id);
        if identity_lt(last, id) {
            assert forall|j: int| 0 <= j < list.len() implies identity_lt(
                #[trigger] list[j],
                id,
            ) by {
                if j < list.len() - 1 {
                    lemma_identity_transitive(list[j], last, id);
                }
            }
            list.len() as int
        } else {
            let rest = list.drop_last();
            let at = lemma_place_in_order(rest, id);
            assert forall|j: int| 0 <= j < at implies identity_lt(#[trigger] list[j], id) by {
                assert(rest[j] == list[j]);
            }
            assert forall|j: int| at <= j < list.len() implies identity_lt(
                id,
                #[trigger] list[j],
            ) by {
                if j < list.len() - 1 {
                    assert(rest[j] == list[j]);
                }
            }
            at
        }
    }
}

/// Every query has an answer in every dataset: `candidates` is that answer.
pub proof fn lemma_candidates_exist(records: Seq<Record>, query: Seq<char>)
    ensures
        is_candidate_list(records, query, candidates(records, query)),
    decreases records.len(),
{
    if records.len() == 0 {
        let none = Seq::<LineIdentity>::empty();
        assert(is_candidate_list(records, query, none));
    } else {
        let n = records.len() - 1;
        let rest = records.drop_last();
        lemma_candidates_exist(rest, query);
        let before = candidates(rest, query);
        let id = records[n].identity;
        assert(records.take(n + 1) =~= records);
        if matches_query(records[n], query) && !before.contains(id) {
            let at = lemma_place_in_order(before, id);
            lemma_insert_in_order(before, at, id);
            let now = before.insert(at, id);
            assert(is_candidate_list(records, query, now));
        } else {
            assert(is_candidate_list(records, query, before));
        }
    }
}

/// A query has one answer: two lists that both answer it are the same.
pub proof fn lemma_candidates_unique(
    records: Seq<Record>,
    query: Seq<char>,
    a: Seq<LineIdentity>,
    b: Seq<LineIdentity>,
)
    requires
        is_candidate_list(records, query, a),
        is_candidate_list(records, query, b),
    ensures
        a == b,
{
    lemma_ascending_unique(a, b);
}

/// A list in strictly ascending order holds nothing twice.
pub proof fn lemma_ascending_no_duplicates(list: Seq<LineIdentity>)
    requires
        strictly_ascending(list),
    ensures
        list.no_duplicates(),
{
    assert forall|i: int, j: int| 0 <= i < list.len() && 0 <= j < list.len() && i != j implies list[i]
        != list[j] by {
        lemma_identity_irreflexive(list[i]);
    }
}

/// The answer to a query does not depend on the order of the sections: two
/// datasets with the same sections, in whatever order, have the same
/// candidates, in the same order.
pub proof fn lemma_search_ignores_record_order(
    first: Seq<Record>,
    second: Seq<Record>,
    query: Seq<char>,
    a: Seq<LineIdentity>,
    b: Seq<LineIdentity>,
)
    requires
        first.to_multiset() == second.to_multiset(),
        is_candidate_list(first, query, a),
        is_candidate_list(second, query, b),
    ensures
        a == b,
{
    first.to_multiset_ensures();
    second.to_multiset_ensures();
    assert forall|id: LineIdentity| is_candidate(first, query, id) <==> is_candidate(
        second,
        query,
        id,
    ) by {
        if is_candidate(first, query, id) {
            let i = choose|i: int|
                0 <= i < first.len() && matches_query(#[trigger] first[i], query)
                    && first[i].identity == id;
            assert(first.to_multiset().count(first[i]) > 0);
        }
        if is_candidate(second, query, id) {
            let i = choose|i: int|
                0 <= i < second.len() && matches_query(#[trigger] second[i], query)
                    && second[i].identity == id;
            assert(second.to_multiset().count(second[i]) > 0);
        }
    }
    lemma_ascending_unique(a, b);
}

/// The answer to a query is the same for two datasets with the same
/// sections, in whatever order.
pub proof fn lemma_candidates_ignore_record_order(
    first: Seq<Record>,
    second: Seq<Record>,
    query: Seq<char>,
)
    requires
        first.to_multiset() == second.to_multiset(),
    ensures
        candidates(first, query) == candidates(second, query),
{
    lemma_candidates_exist(first, query);
    lemma_candidates_exist(second, query);
    lemma_search_ignores_record_order(
        first,
        second,
        query,
        candidates(first, query),
        candidates(second, query),
    );
}

/// The answer to a query holds no line twice, and each line in it has the
/// query in its name or in the name of its operator.
pub proof fn lemma_candidates_match(records: Seq<Record>, query: Seq<char>)
    ensures
        candidates(records, query).no_duplicates(),
        forall|k: int|
            0 <= k < candidates(records, query).len() ==> contains_text(
                (#[trigger] candidates(records, query)[k]).line,
                query,
            ) || contains_text(candidates(records, query)[k].company, query),
{
    let list = candidates(records, query);
    lemma_candidates_exist(records, query);
    lemma_ascending_no_duplicates(list);
    assert forall|k: int| 0 <= k < list.len() implies contains_text(
        (#[trigger] list[k]).line,
        query,
    ) || contains_text(list[k].company, query) by {
        assert(list.contains(list[k]));
    }
}

/// Whether the line with the names `key` comes strictly before the line
/// with the names `company` and `line`.
fn key_lt(key: &(Vec<char>, Vec<char>), company: &Vec<char>, line: &Vec<char>) -> (before: bool)
    ensures
        before == identity_lt(
            LineIdentity { company: key.0@, line: key.1@ },
            LineIdentity { company: company@, line: line@ },
        ),
{
    chars_lt(&key.0, company) || (chars_eq(&key.0, company) && chars_lt(&key.1, line))
}

/// The names of the lines `keys`, as identities.
pub open spec fn key_views(keys: Seq<(Vec<char>, Vec<char>)>) -> Seq<LineIdentity> {
    keys.map_values(|key: (Vec<char>, Vec<char>)| LineIdentity { company: key.0@, line: key.1@ })
}

/// The first place in the ascending `keys` whose line does not come before
/// the line with the names `company` and `line`.
fn lower_bound(keys: &Vec<(Vec<char>, Vec<char>)>, company: &Vec<char>, line: &Vec<char>) -> (at:
    usize)
    requires
        strictly_ascending(key_views(keys@)),
    ensures
        at <= keys.len(),
        forall|j: int|
            0 <= j < at ==> identity_lt(
                #[trigger] key_views(keys@)[j],
                LineIdentity { company: company@, line: line@ },
            ),
        forall|j: int|
            at <= j < keys.len() ==> !identity_lt(
                #[trigger] key_views(keys@)[j],
                LineIdentity { company: company@, line: line@ },
            ),
{
    let ghost list = key_views(keys@);
    let ghost id = LineIdentity { company: company@, line: line@ };
    let mut lo: usize = 0;
    let mut hi: usize = keys.len();
    while lo < hi
        invariant
            lo <= hi <= keys.len(),
            list == key_views(keys@),
            id == (LineIdentity { company: company@, line: line@ }),
            strictly_ascending(list),
            forall|j: int| 0 <= j < lo ==> identity_lt(#[trigger] list[j], id),
            forall|j: int| hi <= j < keys.len() ==> !identity_lt(#[trigger] list[j], id),
        decreases hi - lo,
    {
        let mid: usize = lo + (hi - lo) / 2;
        if key_lt(&keys[mid], company, line) {
            assert forall|j: int| 0 <= j < mid + 1 implies identity_lt(#[trigger] list[j], id) by {
                if j < mid {
                    lemma_identity_transitive(list[j], list[mid as int], id);
                }
            }
            lo = mid + 1;
        } else {
            assert forall|j: int| mid <= j < keys.len() implies !identity_lt(
                #[trigger] list[j],
                id,
            ) by {
                if j > mid && identity_lt(list[j], id) {
                    lemma_identity_transitive(list[mid as int], list[j], id);
                }
            }
            hi = mid;
        }
    }
    lo
}

/// The lines of the dataset that match `query`.
///
/// A section matches when the name of its line or the name of its operator
/// contains the query, exactly as it is given. The lines of the matching
/// sections are returned once each, ordered by operator and then by name,
/// whatever the order of the sections.
pub fn search_candidates<'a>(query: &str, geo: &'a Geo) -> (found: Vec<TrainLine<'a>>)
    ensures
        line_views(found@) == candidates(geo@, query@),
        is_candidate_list(geo@, query@, line_views(found@)),
        line_views(found@).no_duplicates(),
        forall|k: int|
            0 <= k < found.len() ==> contains_text((#[trigger] found[k])@.line, query@)
                || contains_text(found[k]@.company, query@),
{
    let needle = to_chars(query);
    let ghost records = geo@;
    let mut found: Vec<TrainLine<'a>> = Vec::new();
    let mut keys: Vec<(Vec<char>, Vec<char>)> = Vec::new();
    let mut i: usize = 0;
    while i < geo.features.len()
        invariant
            i <= geo.features.len(),
            records == geo@,
            needle@ == query@,
            key_views(keys@) == line_views(found@),
            is_candidate_list(records.take(i as int), query@, line_views(found@)),
        decreases geo.features.len() - i,
    {
        let feature = &geo.features[i];
        let line = to_chars(feature.properties.N02_003.as_str());
        let company = to_chars(feature.properties.N02_004.as_str());
        let ghost id = LineIdentity { company: company@, line: line@ };
        let ghost list = line_views(found@);
        assert forall|x: LineIdentity|
            is_candidate(records.take(i + 1), query@, x) <==> is_candidate(
                records.take(i as int),
                query@,
                x,
            ) || (matches_query(records[i as int], query@) && records[i as int].identity == x) by {
            lemma_candidate_step(records, i as int, query@, x);
        }
        if chars_contain(&line, &needle) || chars_contain(&company, &needle) {
            let at = lower_bound(&keys, &company, &line);
            let present = at < keys.len() && chars_eq(&keys[at].0, &company) && chars_eq(
                &keys[at].1,
                &line,
            );
            if present {
                assert(list[at as int] == id);
            } else {
                assert forall|j: int| at <= j < list.len() implies identity_lt(
                    id,
                    #[trigger] list[j],
                ) by {
                    lemma_identity_total(list[at as int], id);
                    if j > at {
                        lemma_identity_transitive(id, list[at as int], list[j]);
                    }
                }
                proof {
                    lemma_insert_in_order(list, at as int, id);
                }
                let train_line = TrainLine {
                    company_name: feature.properties.N02_004.as_str(),
                    line_name: feature.properties.N02_003.as_str(),
                };
                found.insert(at, train_line);
                keys.insert(at, (company, line));
                assert(line_views(found@) =~= list.insert(at as int, id));
            }
        }
        i += 1;
    }
    assert(records.take(i as int) =~= records);
    proof {
        let list = line_views(found@);
        lemma_ascending_no_duplicates(list);
        lemma_candidates_unique(records, query@, list, self::candidates(records, query@));
        assert forall|k: int| 0 <= k < found.len() implies contains_text(
            (#[trigger] found[k])@.line,
            query@,
        ) || contains_text(found[k]@.company, query@) by {
            assert(list.contains(list[k]));
        }
    }
    found
}

} // verus!
