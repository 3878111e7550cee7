use vstd::prelude::*;
use crate::records::ByAgentView;
use crate::records::RecordView;
use crate::records::string_views;
use crate::store::RecordStore;
use crate::store::StoredEntry;

verus! {

/// The first occurrence of each identifier, in order of first occurrence.
pub open spec fn dedup_spec(s: Seq<Seq<char>>) -> Seq<Seq<char>>
    decreases s.len(),
{
    if s.len() == 0 {
        Seq::<Seq<char>>::empty()
    } else {
        let rest = dedup_spec(s.drop_last());
        if rest.contains(s.last()) {
            rest
        } else {
            rest.push(s.last())
        }
    }
}

/// Deduplication keeps exactly the identifiers given, each at most once.
pub proof fn lemma_dedup_props(s: Seq<Seq<char>>)
    ensures
        dedup_spec(s).no_duplicates(),
        forall|x: Seq<char>| dedup_spec(s).contains(x) <==> s.contains(x),
    decreases s.len(),
{
    broadcast use vstd::seq_lib::group_seq_properties;

    if s.len() > 0 {
        lemma_dedup_props(s.drop_last());
        let rest = dedup_spec(s.drop_last());
        assert(s.drop_last().push(s.last()) =~= s);
        if !rest.contains(s.last()) {
            assert forall|x: Seq<char>| dedup_spec(s).contains(x) implies s.contains(x) by {
                if x != s.last() {
                    assert(rest.contains(x));
                }
            }
            assert forall|x: Seq<char>| s.contains(x) implies dedup_spec(s).contains(x) by {
                if x != s.last() {
                    assert(s.drop_last().contains(x));
                }
            }
        }
    }
}

/// The decodable records among `entries` whose author is `a`, in order.
pub open spec fn author_filter(entries: Seq<StoredEntry>, a: Seq<char>) -> Seq<RecordView>
    decreases entries.len(),
{
    if entries.len() == 0 {
        Seq::<RecordView>::empty()
    } else {
        let rest = author_filter(entries.drop_last(), a);
        match entries.last().decoded() {
            Some(rv) => if rv.author == a {
                rest.push(rv)
            } else {
                rest
            },
            None => rest,
        }
    }
}

impl RecordStore {
    /// All records authored by `a` among the decodable entries, in store
    /// order.
    pub open spec fn author_records(self, a: Seq<char>) -> Seq<RecordView> {
        author_filter(self.entries@, a)
    }

    /// The per-agent index for a requested list of agents: one slot for each
    /// agent after deduplication, holding exactly the stored records that
    /// agent authored.
    pub open spec fn by_agent_spec(self, agents: Seq<Seq<char>>) -> Seq<ByAgentView> {
        dedup_spec(agents).map_values(
            |a: Seq<char>| ByAgentView { author: a, metadata: self.author_records(a) },
        )
    }
}

/// Whether some string of `v` has the same characters as `s`.
pub fn contains_string(v: &Vec<String>, s: &String) -> (r: bool)
    ensures
        r == string_views(v@).contains(s@),
{
    let ghost vs = string_views(v@);
    let mut i: usize = 0;
    while i < v.len()
        invariant
            i <= v@.len(),
            vs == string_views(v@),
            forall|j: int| 0 <= j < i ==> vs[j] != s@,
        decreases v@.len() - i,
    {
        if v[i] == *s {
            proof {
                assert(vs[i as int] == s@);
            }
            return true;
        }
        i = i + 1;
    }
    proof {
        if vs.contains(s@) {
            let j = choose|j: int| 0 <= j < vs.len() && vs[j] == s@;
            assert(vs[j] != s@);
        }
    }
    false
}

/// Deduplicates a list of agent identifiers, keeping the first occurrence
/// of each, in order of first occurrence.
pub fn dedup_agents(v: &Vec<String>) -> (r: Vec<String>)
    ensures
        string_views(r@) == dedup_spec(string_views(v@)),
{
    let ghost in_vs = string_views(v@);
    let mut out: Vec<String> = Vec::new();
    let mut i: usize = 0;
    proof {
        assert(in_vs.take(0) =~= Seq::<Seq<char>>::empty());
        assert(string_views(out@) =~= dedup_spec(in_vs.take(0)));
    }
    while i < v.len()
        invariant
            i <= v@.len(),
            in_vs == string_views(v@),
            string_views(out@) == dedup_spec(in_vs.take(i as int)),
        decreases v@.len() - i,
    {
        let ghost t1 = in_vs.take(i as int + 1);
        proof {
            assert(t1.drop_last() =~= in_vs.take(i as int));
            assert(t1.last() == in_vs[i as int]);
        }
        let ghost pre = out@;
        if !contains_string(&out, &v[i]) {
            out.push(v[i].clone());
            proof {
                assert(string_views(out@) =~= string_views(pre).push(in_vs[i as int]));
            }
        }
        proof {
            assert(string_views(out@) == dedup_spec(t1));
        }
        i = i + 1;
    }
    proof {
        assert(in_vs.take(in_vs.len() as int) =~= in_vs);
    }
    out
}

/// Requesting an agent twice changes nothing: for any identifiers `a` and
/// `b` and any store, the per-agent index for `[a, a, b]` equals the index
/// for `[a, b]`.
pub proof fn lemma_by_agent_dedup(s: RecordStore, a: Seq<char>, b: Seq<char>)
    ensures
        s.by_agent_spec(seq![a, a, b]) == s.by_agent_spec(seq![a, b]),
{
    reveal_with_fuel(dedup_spec, 5);
    assert(seq![a, a, b].drop_last() =~= seq![a, a]);
    assert(seq![a, a].drop_last() =~= seq![a]);
    assert(seq![a].drop_last() =~= Seq::<Seq<char>>::empty());
    assert(seq![a, b].drop_last() =~= seq![a]);
    if Seq::<Seq<char>>::empty().contains(a) {
        let i = choose|i: int|
            0 <= i < Seq::<Seq<char>>::empty().len() && Seq::<Seq<char>>::empty()[i] == a;
        assert(false);
    }
    assert(dedup_spec(seq![a]) =~= seq![a]);
    assert(seq![a][0] == a);
    assert(seq![a].contains(a));
    assert(dedup_spec(seq![a, a]) == seq![a]);
    if a == b {
        assert(dedup_spec(seq![a, a, b]) == seq![a]);
        assert(dedup_spec(seq![a, b]) == seq![a]);
    } else {
        if seq![a].contains(b) {
            let i = choose|i: int| 0 <= i < seq![a].len() && seq![a][i] == b;
            assert(seq![a][i] == b);
            assert(false);
        }
        assert(dedup_spec(seq![a, a, b]) == seq![a].push(b));
        assert(dedup_spec(seq![a, b]) == seq![a].push(b));
    }
}

} // verus!
