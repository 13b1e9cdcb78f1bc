//! Deriving the display list from the full server list and the search query:
//! a case-insensitive substring filter followed by a case-insensitive sort on
//! the server name.

use vstd::prelude::*;
use vstd::multiset::Multiset;
use crate::server::Server;
use crate::text::contains_seq;
use crate::text::contains_substr;
use crate::text::lemma_lex_le_total;
use crate::text::lemma_lex_le_trans;
use crate::text::lex_le;
use crate::text::lex_le_exec;
use crate::text::lower_of;
use crate::text::to_lower;

verus! {

/// A record matches a query when the query is empty, or when the record's
/// lower-cased name or lower-cased map label contains the lower-cased query
/// as a substring.
pub open spec fn server_matches(s: Server, q: Seq<char>) -> bool {
    ||| q.len() == 0
    ||| contains_seq(lower_of(s.name@), lower_of(q))
    ||| contains_seq(lower_of(s.map_label@), lower_of(q))
}

/// The subsequence of `l` whose records match `q`, in their original order.
pub open spec fn filter_matching(l: Seq<Server>, q: Seq<char>) -> Seq<Server>
    decreases l.len(),
{
    if l.len() == 0 {
        Seq::empty()
    } else {
        let rest = filter_matching(l.drop_last(), q);
        if server_matches(l.last(), q) {
            rest.push(l.last())
        } else {
            rest
        }
    }
}

proof fn lemma_filter_matching_push(l: Seq<Server>, q: Seq<char>, s: Server)
    ensures
        filter_matching(l.push(s), q) == if server_matches(s, q) {
            filter_matching(l, q).push(s)
        } else {
            filter_matching(l, q)
        },
{
    assert(l.push(s).drop_last() =~= l);
    assert(l.push(s).last() == s);
}

/// Every record of the filtered list matches the query.
pub proof fn lemma_filter_matching_members(l: Seq<Server>, q: Seq<char>)
    ensures
        forall|i: int|
            0 <= i < filter_matching(l, q).len() ==> server_matches(
                #[trigger] filter_matching(l, q)[i],
                q,
            ),
    decreases l.len(),
{
    if l.len() > 0 {
        lemma_filter_matching_members(l.drop_last(), q);
        let f = filter_matching(l, q);
        let fd = filter_matching(l.drop_last(), q);
        assert forall|i: int| 0 <= i < f.len() implies server_matches(#[trigger] f[i], q) by {
            if server_matches(l.last(), q) {
                assert(f == fd.push(l.last()));
                if i < fd.len() {
                    assert(f[i] == fd[i]);
                } else {
                    assert(f[i] == l.last());
                }
            } else {
                assert(f == fd);
                assert(f[i] == fd[i]);
            }
        }
    }
}

/// Every record of the filtered list is a record of the original list.
pub proof fn lemma_filter_matching_subset(l: Seq<Server>, q: Seq<char>)
    ensures
        forall|s: Server| filter_matching(l, q).contains(s) ==> #[trigger] l.contains(s),
    decreases l.len(),
{
    if l.len() > 0 {
        lemma_filter_matching_subset(l.drop_last(), q);
        assert forall|s: Server| filter_matching(l, q).contains(s) implies #[trigger] l.contains(
            s,
        ) by {
            let f = filter_matching(l, q);
            let fd = filter_matching(l.drop_last(), q);
            let j = choose|j: int| 0 <= j < f.len() && f[j] == s;
            if server_matches(l.last(), q) && j == fd.len() {
                assert(f == fd.push(l.last()));
                assert(s == l.last());
                assert(l[l.len() - 1] == s);
            } else {
                assert(fd[j] == s);
                assert(fd.contains(s));
                assert(l.drop_last().contains(s));
                let k = choose|k: int| 0 <= k < l.drop_last().len() && l.drop_last()[k] == s;
                assert(l.drop_last()[k] == l[k]);
                assert(l[k] == s);
            }
        }
    }
}

/// A list whose records all match `q` is left unchanged by the filter.
pub proof fn lemma_filter_matching_all(l: Seq<Server>, q: Seq<char>)
    requires
        forall|i: int| 0 <= i < l.len() ==> server_matches(#[trigger] l[i], q),
    ensures
        filter_matching(l, q) == l,
    decreases l.len(),
{
    if l.len() == 0 {
        assert(filter_matching(l, q) =~= l);
    } else {
        assert(forall|i: int|
            0 <= i < l.drop_last().len() ==> server_matches(#[trigger] l.drop_last()[i], q));
        lemma_filter_matching_all(l.drop_last(), q);
        assert(filter_matching(l, q) =~= l);
    }
}

/// An empty query keeps every record.
pub proof fn lemma_filter_matching_empty_query(l: Seq<Server>, q: Seq<char>)
    requires
        q.len() == 0,
    ensures
        filter_matching(l, q) == l,
{
    lemma_filter_matching_all(l, q);
}

/// Filtering is idempotent: filtering an already-filtered list with the same
/// query returns it unchanged.
pub proof fn lemma_filter_matching_idempotent(l: Seq<Server>, q: Seq<char>)
    ensures
        filter_matching(filter_matching(l, q), q) == filter_matching(l, q),
{
    lemma_filter_matching_members(l, q);
    lemma_filter_matching_all(filter_matching(l, q), q);
}

/// Keep exactly the records matching `query`, in their original order.
pub fn filter_servers(servers: Vec<Server>, query: &str) -> (r: Vec<Server>)
    ensures
        r@ == filter_matching(servers@, query@),
{
    let ghost orig = servers@;
    let q_is_empty = query.is_empty();
    let ql = to_lower(query);
    let mut rest = servers;
    let mut out: Vec<Server> = Vec::new();
    let ghost mut i: int = 0;
    proof {
        assert(rest@ =~= orig.subrange(0, orig.len() as int));
        assert(out@ =~= filter_matching(orig.subrange(0, 0), query@));
    }
    while rest.len() > 0
        invariant
            0 <= i <= orig.len(),
            rest@ == orig.subrange(i, orig.len() as int),
            out@ == filter_matching(orig.subrange(0, i), query@),
            q_is_empty == (query@.len() == 0),
            ql@ == lower_of(query@),
        decreases orig.len() - i,
    {
        let s = rest.remove(0);
        proof {
            assert(s == orig[i]);
            assert(rest@ =~= orig.subrange(i + 1, orig.len() as int));
        }
        let keep: bool;
        if q_is_empty {
            keep = true;
        } else {
            let name_l = to_lower(s.name.as_str());
            if contains_substr(name_l.as_str(), ql.as_str()) {
                keep = true;
            } else {
                let map_l = to_lower(s.map_label.as_str());
                keep = contains_substr(map_l.as_str(), ql.as_str());
            }
        }
        proof {
            assert(keep == server_matches(s, query@));
        }
        if keep {
            out.push(s);
        }
        proof {
            lemma_filter_matching_push(orig.subrange(0, i), query@, orig[i]);
            assert(orig.subrange(0, i + 1) =~= orig.subrange(0, i).push(orig[i]));
            i = i + 1;
        }
    }
    proof {
        assert(orig.subrange(0, orig.len() as int) =~= orig);
    }
    out
}

/// Order on records: ascending by lower-cased name, code-point-wise.
pub open spec fn name_le(a: Server, b: Server) -> bool {
    lex_le(lower_of(a.name@), lower_of(b.name@))
}

/// The list is sorted ascending by lower-cased name.
pub open spec fn sorted_by_name(s: Seq<Server>) -> bool {
    forall|i: int, j: int| 0 <= i < j < s.len() ==> #[trigger] name_le(s[i], s[j])
}

/// Decides `name_le` on two records.
fn server_le(a: &Server, b: &Server) -> (r: bool)
    ensures
        r == name_le(*a, *b),
{
    let la = to_lower(a.name.as_str());
    let lb = to_lower(b.name.as_str());
    lex_le_exec(la.as_str(), lb.as_str())
}

proof fn lemma_to_multiset_insert(v: Seq<Server>, j: int, s: Server)
    requires
        0 <= j <= v.len(),
    ensures
        v.insert(j, s).to_multiset() == v.to_multiset().insert(s),
{
    broadcast use vstd::seq_lib::group_to_multiset_ensures;

    let w = v.insert(j, s);
    assert(w[j] == s);
    assert(w.remove(j) =~= v);
    assert(v.to_multiset() == w.to_multiset().remove(s));
    assert(w.contains(s));
    assert(w.to_multiset().count(s) > 0);
    assert(w.to_multiset() =~= v.to_multiset().insert(s));
}

/// Sort the list ascending by lower-cased name. The result is a permutation
/// of the input; an input that is already sorted comes back unchanged.
pub fn sort_by_name(servers: Vec<Server>) -> (r: Vec<Server>)
    ensures
        sorted_by_name(r@),
        r@.to_multiset() == servers@.to_multiset(),
        sorted_by_name(servers@) ==> r@ == servers@,
{
    broadcast use vstd::seq_lib::group_to_multiset_ensures;

    let ghost orig = servers@;
    let mut rest = servers;
    let mut out: Vec<Server> = Vec::new();
    proof {
        assert(out@.to_multiset().add(rest@.to_multiset()) =~= orig.to_multiset());
        assert(out@ + rest@ =~= orig);
    }
    while rest.len() > 0
        invariant
            sorted_by_name(out@),
            out@.to_multiset().add(rest@.to_multiset()) == orig.to_multiset(),
            sorted_by_name(orig) ==> out@ + rest@ == orig,
        decreases rest@.len(),
    {
        broadcast use vstd::seq_lib::group_to_multiset_ensures;

        let ghost out_before = out@;
        let ghost rest_before = rest@;
        let s = rest.remove(0);
        proof {
            assert(rest@ =~= rest_before.remove(0));
            assert(rest_before[0] == s);
            assert(rest@.to_multiset() == rest_before.to_multiset().remove(s));
            assert(rest_before.to_multiset().count(s) > 0);
        }
        let mut j = out.len();
        while j > 0 && !server_le(&out[j - 1], &s)
            invariant
                j <= out@.len(),
                sorted_by_name(out@),
                out@ == out_before,
                forall|k: int| j <= k < out@.len() ==> !name_le(#[trigger] out@[k], s),
                sorted_by_name(orig) ==> out_before + rest_before == orig,
                sorted_by_name(orig) ==> j == out@.len(),
                rest_before.len() > 0 && rest_before[0] == s,
            decreases j,
        {
            proof {
                if sorted_by_name(orig) {
                    assert(orig[out@.len() - 1] == out@[j - 1]);
                    assert(orig[out@.len() as int] == s);
                    assert(name_le(out@[j - 1], s));
                }
            }
            j -= 1;
        }
        proof {
            assert forall|k: int| 0 <= k < j implies name_le(#[trigger] out@[k], s) by {
                if k < j - 1 {
                    assert(name_le(out@[k], out@[j - 1]));
                    lemma_lex_le_trans(
                        lower_of(out@[k].name@),
                        lower_of(out@[j - 1].name@),
                        lower_of(s.name@),
                    );
                } else {
                    assert(k == j - 1);
                }
            }
            assert forall|k: int| j <= k < out@.len() implies name_le(
                s,
                #[trigger] out@[k],
            ) by {
                lemma_lex_le_total(lower_of(s.name@), lower_of(out@[k].name@));
            }
        }
        let ghost out_pre_insert = out@;
        let ghost jj = j as int;
        out.insert(j, s);
        proof {
            assert(out@ == out_pre_insert.insert(jj, s));
            lemma_to_multiset_insert(out_pre_insert, jj, s);
            assert(out@.to_multiset().add(rest@.to_multiset()) =~= orig.to_multiset());
            assert forall|p: int, q: int| 0 <= p < q < out@.len() implies #[trigger] name_le(
                out@[p],
                out@[q],
            ) by {
                out_pre_insert.insert_ensures(jj, s);
            }
            if sorted_by_name(orig) {
                assert(jj == out_pre_insert.len());
                assert(out@ =~= out_pre_insert.push(s));
                assert(out@ + rest@ =~= orig);
            }
        }
    }
    proof {
        assert(rest@.to_multiset() =~= Multiset::empty());
        assert(out@.to_multiset() =~= orig.to_multiset());
        if sorted_by_name(orig) {
            assert(out@ =~= out@ + rest@);
        }
    }
    out
}

/// `d` is the display list derived from list `l` and query `q`: the records
/// of `l` matching `q`, each kept exactly as often as it occurs, sorted
/// ascending by lower-cased name.
pub open spec fn is_display_of(d: Seq<Server>, l: Seq<Server>, q: Seq<char>) -> bool {
    &&& d.to_multiset() == filter_matching(l, q).to_multiset()
    &&& sorted_by_name(d)
}

/// Derive the display list: keep the records matching `query` and sort them
/// ascending by lower-cased name. A list that is already sorted and all of
/// whose records match comes back unchanged.
pub fn display_list(servers: Vec<Server>, query: &str) -> (r: Vec<Server>)
    ensures
        is_display_of(r@, servers@, query@),
        sorted_by_name(servers@) && (forall|i: int|
            0 <= i < servers@.len() ==> server_matches(#[trigger] servers@[i], query@)) ==> r@
            == servers@,
{
    let ghost orig = servers@;
    let kept = filter_servers(servers, query);
    proof {
        if sorted_by_name(orig) && (forall|i: int|
            0 <= i < orig.len() ==> server_matches(#[trigger] orig[i], query@)) {
            lemma_filter_matching_all(orig, query@);
        }
    }
    sort_by_name(kept)
}

/// The display list never invents records: it is a sub-collection of the
/// full list, every member matches the query, and with an empty query it
/// holds exactly the members of the full list.
pub proof fn lemma_display_members(d: Seq<Server>, l: Seq<Server>, q: Seq<char>)
    requires
        is_display_of(d, l, q),
    ensures
        forall|s: Server| d.contains(s) ==> #[trigger] l.contains(s),
        forall|i: int| 0 <= i < d.len() ==> server_matches(#[trigger] d[i], q),
        q.len() == 0 ==> d.to_multiset() == l.to_multiset(),
{
    broadcast use vstd::seq_lib::group_to_multiset_ensures;

    let f = filter_matching(l, q);
    lemma_filter_matching_members(l, q);
    lemma_filter_matching_subset(l, q);
    assert forall|s: Server| d.contains(s) implies #[trigger] l.contains(s) by {
        assert(d.to_multiset().count(s) > 0);
        assert(f.to_multiset().count(s) > 0);
        assert(f.contains(s));
    }
    assert forall|i: int| 0 <= i < d.len() implies server_matches(#[trigger] d[i], q) by {
        let s = d[i];
        assert(d.contains(s));
        assert(d.to_multiset().count(s) > 0);
        assert(f.to_multiset().count(s) > 0);
        assert(f.contains(s));
        let k = choose|k: int| 0 <= k < f.len() && f[k] == s;
        assert(server_matches(f[k], q));
    }
    if q.len() == 0 {
        lemma_filter_matching_empty_query(l, q);
    }
}

/// The display list is sorted: each record's lower-cased name is at most the
/// next one's, code-point-wise.
pub proof fn lemma_display_sorted(d: Seq<Server>, l: Seq<Server>, q: Seq<char>)
    requires
        is_display_of(d, l, q),
    ensures
        forall|i: int| 0 <= i && i + 1 < d.len() ==> name_le(#[trigger] d[i], d[i + 1]),
{
}

/// Filtering twice with the same query yields the same result as filtering
/// once: a display list is sorted, all its records match, and it is its own
/// display list, so `display_list` applied to it with the same query returns
/// it unchanged.
pub proof fn lemma_display_idempotent(d: Seq<Server>, l: Seq<Server>, q: Seq<char>)
    requires
        is_display_of(d, l, q),
    ensures
        sorted_by_name(d),
        forall|i: int| 0 <= i < d.len() ==> server_matches(#[trigger] d[i], q),
        is_display_of(d, d, q),
{
    lemma_display_members(d, l, q);
    lemma_filter_matching_all(d, q);
}

} // verus!
