//! Discovery of audio capture endpoints: parsing the block-structured source
//! listing, classifying each endpoint, and ranking the list by priority.

use vstd::prelude::*;
use vstd::string::StrSliceExecFns;
use crate::text::{
    contains_seq, contains_str, lex_le, match_at, lemma_lex_total, lemma_lex_trans, lex_le_str,
    split_seq, split_str, starts_with, str_eq, str_views, trim_str, trimmed,
};

verus! {

broadcast use vstd::seq_lib::group_to_multiset_ensures, vstd::multiset::group_multiset_axioms;

/// One discovered capture endpoint.
#[derive(Debug)]
pub struct AudioSource {
    /// Stable identifier of the endpoint within the audio subsystem.
    pub name: String,
    /// Human-readable label; not necessarily unique.
    pub description: String,
    /// True if the endpoint mirrors an output device.
    pub is_monitor: bool,
    /// True only when the reported state is the exact active token.
    pub is_running: bool,
    /// True if the identifier equals the derived default-sink monitor.
    pub is_default: bool,
}

/// The mathematical model of one endpoint.
pub struct SourceModel {
    pub name: Seq<char>,
    pub description: Seq<char>,
    pub is_monitor: bool,
    pub is_running: bool,
    pub is_default: bool,
}

impl View for AudioSource {
    type V = SourceModel;

    open spec fn view(&self) -> SourceModel {
        SourceModel {
            name: self.name@,
            description: self.description@,
            is_monitor: self.is_monitor,
            is_running: self.is_running,
            is_default: self.is_default,
        }
    }
}

impl Clone for AudioSource {
    /// Copies every field; the model is preserved.
    fn clone(&self) -> (r: Self)
        ensures
            r@ == self@,
    {
        AudioSource {
            name: self.name.clone(),
            description: self.description.clone(),
            is_monitor: self.is_monitor,
            is_running: self.is_running,
            is_default: self.is_default,
        }
    }
}

/// The models of a list of endpoints.
pub open spec fn views_of(v: Seq<AudioSource>) -> Seq<SourceModel> {
    v.map_values(|s: AudioSource| s@)
}

/// The value on the last line of `lines` whose trimmed text starts with
/// `pre`, itself trimmed, if any line matches.
pub open spec fn last_field(lines: Seq<Seq<char>>, pre: Seq<char>) -> Option<Seq<char>>
    decreases lines.len(),
{
    if lines.len() == 0 {
        None
    } else {
        let lt = trimmed(lines.last());
        if match_at(lt, pre, 0) {
            Some(trimmed(lt.skip(pre.len() as int)))
        } else {
            last_field(lines.drop_last(), pre)
        }
    }
}

/// The name, description and state fields of one record block, if all three
/// occur on its lines.
pub open spec fn block_fields(b: Seq<char>) -> Option<(Seq<char>, Seq<char>, Seq<char>)> {
    let ls = split_seq(b, "\n"@);
    match (last_field(ls, "Name:"@), last_field(ls, "Description:"@), last_field(ls, "State:"@)) {
        (Some(n), Some(d), Some(s)) => Some((n, d, s)),
        _ => None,
    }
}

/// The records of those blocks that hold all three fields, in listing order.
pub open spec fn records_of(bs: Seq<Seq<char>>) -> Seq<(Seq<char>, Seq<char>, Seq<char>)>
    decreases bs.len(),
{
    if bs.len() == 0 {
        Seq::empty()
    } else {
        records_of(bs.drop_last()) + match block_fields(bs.last()) {
            Some(r) => seq![r],
            None => Seq::empty(),
        }
    }
}

/// The `(name, description, state)` records parsed from a source listing:
/// the listing splits into per-endpoint blocks at each record marker, and a
/// block missing any field is dropped.
pub open spec fn parse_records(s: Seq<char>) -> Seq<(Seq<char>, Seq<char>, Seq<char>)> {
    records_of(split_seq(s, "Source #"@))
}

fn extract_field(lines: &Vec<String>, pre: &str) -> (r: Option<String>)
    ensures
        match r {
            Some(v) => last_field(str_views(lines@), pre@) == Some(v@),
            None => last_field(str_views(lines@), pre@) is None,
        },
{
    let ghost lv = str_views(lines@);
    let mut res: Option<String> = None;
    let mut i: usize = 0;
    while i < lines.len()
        invariant
            i <= lines.len(),
            lv == str_views(lines@),
            match res {
                Some(v) => last_field(lv.take(i as int), pre@) == Some(v@),
                None => last_field(lv.take(i as int), pre@) is None,
            },
        decreases lines.len() - i,
    {
        let t = trim_str(lines[i].as_str());
        proof {
            assert(lv.take(i + 1).drop_last() =~= lv.take(i as int));
            assert(lv.take(i + 1).last() == lv[i as int]);
        }
        if starts_with(t, pre) {
            let val = trim_str(t.substring_char(pre.unicode_len(), t.unicode_len())).to_owned();
            proof {
                assert(t@.subrange(pre@.len() as int, t@.len() as int) =~= t@.skip(
                    pre@.len() as int,
                ));
            }
            res = Some(val);
        }
        i = i + 1;
    }
    proof {
        assert(lv.take(lines@.len() as int) =~= lv);
    }
    res
}

/// Extracts `(name, description, state)` from every well-formed block of a
/// source listing; blocks missing any of the three fields are dropped.
pub fn parse_pactl_sources_output(output: &str) -> (r: Vec<(String, String, String)>)
    ensures
        r@.len() == parse_records(output@).len(),
        forall|i: int|
            0 <= i < r@.len() ==> {
                &&& (#[trigger] r@[i]).0@ == parse_records(output@)[i].0
                &&& r@[i].1@ == parse_records(output@)[i].1
                &&& r@[i].2@ == parse_records(output@)[i].2
            },
{
    proof {
        reveal_strlit("Source #");
        reveal_strlit("\n");
    }
    let blocks = split_str(output, "Source #");
    let ghost bv = str_views(blocks@);
    let ghost recs = parse_records(output@);
    let mut r: Vec<(String, String, String)> = Vec::new();
    let mut i: usize = 0;
    proof {
        assert(records_of(bv.take(0)) =~= Seq::empty());
    }
    while i < blocks.len()
        invariant
            i <= blocks.len(),
            bv == str_views(blocks@),
            recs == records_of(bv),
            r@.len() == records_of(bv.take(i as int)).len(),
            forall|j: int|
                0 <= j < r@.len() ==> {
                    &&& (#[trigger] r@[j]).0@ == records_of(bv.take(i as int))[j].0
                    &&& r@[j].1@ == records_of(bv.take(i as int))[j].1
                    &&& r@[j].2@ == records_of(bv.take(i as int))[j].2
                },
        decreases blocks.len() - i,
    {
        proof {
            reveal_strlit("\n");
        }
        let lines = split_str(blocks[i].as_str(), "\n");
        let name = extract_field(&lines, "Name:");
        let desc = extract_field(&lines, "Description:");
        let state = extract_field(&lines, "State:");
        proof {
            assert(bv.take(i + 1).drop_last() =~= bv.take(i as int));
            assert(bv.take(i + 1).last() == bv[i as int]);
            assert(str_views(lines@) == split_seq(bv[i as int], "\n"@));
        }
        match (name, desc, state) {
            (Some(n), Some(d), Some(s)) => {
                proof {
                    assert(block_fields(bv[i as int]) == Some((n@, d@, s@)));
                }
                r.push((n, d, s));
            },
            _ => {
                proof {
                    assert(block_fields(bv[i as int]) is None);
                }
            },
        }
        i = i + 1;
    }
    proof {
        assert(bv.take(blocks@.len() as int) =~= bv);
    }
    r
}

/// The view of an optional borrowed string.
pub open spec fn opt_str_view(o: Option<&String>) -> Option<Seq<char>> {
    match o {
        Some(s) => Some(s@),
        None => None,
    }
}

/// The monitor identifier derived from a default-sink name: the trimmed
/// name with the monitor suffix appended.
pub open spec fn monitor_name_of(sink: Seq<char>) -> Seq<char> {
    trimmed(sink) + ".monitor"@
}

/// The derived default-monitor identifier, where a default sink is known.
pub open spec fn default_monitor_of(sink: Option<Seq<char>>) -> Option<Seq<char>> {
    match sink {
        Some(s) => Some(monitor_name_of(s)),
        None => None,
    }
}

/// Derives the loopback-monitor identifier for a default sink name.
pub fn derive_default_monitor(sink: &str) -> (r: String)
    ensures
        r@ == monitor_name_of(sink@),
{
    let mut r = trim_str(sink).to_owned();
    r.append(".monitor");
    r
}

/// The endpoint built from one parsed record, given the derived
/// default-monitor identifier where one is known: a monitor carries the
/// monitor marker in its identifier, an endpoint is active exactly when its
/// state is the exact active token, and it is the system default exactly
/// when its identifier equals the derived one.
pub open spec fn classify(rec: (Seq<char>, Seq<char>, Seq<char>), dm: Option<Seq<char>>) -> SourceModel {
    SourceModel {
        name: rec.0,
        description: rec.1,
        is_monitor: contains_seq(rec.0, ".monitor"@),
        is_running: rec.2 == "RUNNING"@,
        is_default: match dm {
            Some(m) => rec.0 == m,
            None => false,
        },
    }
}

/// The endpoints built from a record list.
pub open spec fn classified(
    recs: Seq<(Seq<char>, Seq<char>, Seq<char>)>,
    dm: Option<Seq<char>>,
) -> Seq<SourceModel> {
    recs.map_values(|r: (Seq<char>, Seq<char>, Seq<char>)| classify(r, dm))
}

/// A reported state other than the exact active token never yields an
/// active endpoint, whatever the rest of the record holds.
pub proof fn lemma_inactive_state(rec: (Seq<char>, Seq<char>, Seq<char>), dm: Option<Seq<char>>)
    requires
        rec.2 != "RUNNING"@,
    ensures
        !classify(rec, dm).is_running,
{
}

/// Builds the endpoint for one record.
fn make_source(name: String, description: String, state: String, dm: Option<&String>) -> (r:
    AudioSource)
    ensures
        r@ == classify((name@, description@, state@), opt_str_view(dm)),
{
    proof {
        reveal_strlit(".monitor");
    }
    let is_monitor = contains_str(name.as_str(), ".monitor");
    let is_running = str_eq(state.as_str(), "RUNNING");
    let is_default = match dm {
        Some(m) => str_eq(name.as_str(), m.as_str()),
        None => false,
    };
    AudioSource { name, description, is_monitor, is_running, is_default }
}

/// The score that ranks an endpoint: an active endpoint counts most, the
/// system default next, a loopback monitor least.
pub open spec fn spec_score(s: SourceModel) -> int {
    (if s.is_running {
        4int
    } else {
        0int
    }) + (if s.is_default {
        2int
    } else {
        0int
    }) + (if s.is_monitor {
        1int
    } else {
        0int
    })
}

/// Computes the ranking score of one endpoint.
pub fn source_score(s: &AudioSource) -> (r: i32)
    ensures
        r as int == spec_score(s@),
{
    let mut sc: i32 = 0;
    if s.is_running {
        sc = sc + 4;
    }
    if s.is_default {
        sc = sc + 2;
    }
    if s.is_monitor {
        sc = sc + 1;
    }
    sc
}

/// The ranking order: strictly higher score first; equal scores in
/// ascending lexical order of the display label.
pub open spec fn ranked_le(a: SourceModel, b: SourceModel) -> bool {
    spec_score(a) > spec_score(b) || (spec_score(a) == spec_score(b) && lex_le(
        a.description,
        b.description,
    ))
}

/// `s` is sorted by the ranking order.
pub open spec fn ranked_sorted(s: Seq<SourceModel>) -> bool {
    forall|i: int, j: int| 0 <= i < j < s.len() ==> ranked_le(#[trigger] s[i], #[trigger] s[j])
}

/// The ranking order relates every pair of endpoints one way or the other.
pub proof fn lemma_ranked_total(a: SourceModel, b: SourceModel)
    ensures
        ranked_le(a, b) || ranked_le(b, a),
{
    lemma_lex_total(a.description, b.description);
}

/// The ranking order is transitive.
pub proof fn lemma_ranked_trans(a: SourceModel, b: SourceModel, c: SourceModel)
    requires
        ranked_le(a, b),
        ranked_le(b, c),
    ensures
        ranked_le(a, c),
{
    if spec_score(a) == spec_score(b) && spec_score(b) == spec_score(c) {
        lemma_lex_trans(a.description, b.description, c.description);
    }
}

/// Decides the ranking order between two endpoints.
pub fn ranked_before(a: &AudioSource, b: &AudioSource) -> (r: bool)
    ensures
        r == ranked_le(a@, b@),
{
    let sa = source_score(a);
    let sb = source_score(b);
    if sa > sb {
        true
    } else if sa < sb {
        false
    } else {
        lex_le_str(a.description.as_str(), b.description.as_str())
    }
}

/// The position at which a new endpoint lands in a ranked list: after the
/// leading run of elements that rank at or before it.
pub open spec fn insert_pos(s: Seq<SourceModel>, x: SourceModel) -> int
    decreases s.len(),
{
    if s.len() == 0 {
        0
    } else if ranked_le(s[0], x) {
        1 + insert_pos(s.skip(1), x)
    } else {
        0
    }
}

/// One endpoint inserted into a ranked list, after every element that
/// ranks at or before it: a later arrival never overtakes its equals.
pub open spec fn insert_ranked(s: Seq<SourceModel>, x: SourceModel) -> Seq<SourceModel> {
    s.insert(insert_pos(s, x), x)
}

/// The ranked order of an endpoint list: each element inserted in turn, so
/// that arrival order is kept among elements that rank equal.
pub open spec fn sort_ranked(s: Seq<SourceModel>) -> Seq<SourceModel>
    decreases s.len(),
{
    if s.len() == 0 {
        Seq::empty()
    } else {
        insert_ranked(sort_ranked(s.drop_last()), s.last())
    }
}

proof fn lemma_insert_pos_at(s: Seq<SourceModel>, x: SourceModel, j: int)
    requires
        0 <= j <= s.len(),
        forall|k: int| 0 <= k < j ==> ranked_le(#[trigger] s[k], x),
        j < s.len() ==> !ranked_le(s[j], x),
    ensures
        insert_pos(s, x) == j,
    decreases j,
{
    if j > 0 {
        lemma_insert_pos_at(s.skip(1), x, j - 1);
    }
}

proof fn lemma_insert_sorted(s: Seq<SourceModel>, x: SourceModel, j: int)
    requires
        ranked_sorted(s),
        0 <= j <= s.len(),
        forall|k: int| 0 <= k < j ==> ranked_le(#[trigger] s[k], x),
        j < s.len() ==> !ranked_le(s[j], x),
    ensures
        ranked_sorted(s.insert(j, x)),
{
    let t = s.insert(j, x);
    if j < s.len() {
        lemma_ranked_total(s[j], x);
    }
    assert forall|p: int, q: int| 0 <= p < q < t.len() implies ranked_le(t[p], t[q]) by {
        if q < j {
            assert(t[p] == s[p] && t[q] == s[q]);
        } else if p < j && q == j {
            assert(t[p] == s[p] && t[q] == x);
        } else if p < j && q > j {
            assert(t[p] == s[p] && t[q] == s[q - 1]);
        } else if p == j {
            assert(t[p] == x && t[q] == s[q - 1]);
            if q - 1 > j {
                lemma_ranked_trans(x, s[j], s[q - 1]);
            }
        } else {
            assert(t[p] == s[p - 1] && t[q] == s[q - 1]);
        }
    }
}

/// Sorts endpoints by the ranking order: the result is exactly the stable
/// ranked order of the input — a permutation, ranked first to last, with
/// arrival order kept among elements that rank equal.
pub fn rank_sources(input: Vec<AudioSource>) -> (r: Vec<AudioSource>)
    ensures
        views_of(r@) == sort_ranked(views_of(input@)),
        views_of(r@).to_multiset() == views_of(input@).to_multiset(),
        ranked_sorted(views_of(r@)),
{
    broadcast use vstd::seq_lib::group_to_multiset_ensures;

    let ghost orig = views_of(input@);
    let mut rem = input;
    let ghost fullv = rem@;
    let mut out: Vec<AudioSource> = Vec::new();
    proof {
        assert(views_of(out@) =~= Seq::<SourceModel>::empty());
        assert(views_of(out@).to_multiset().add(views_of(rem@).to_multiset()) =~= orig.to_multiset());
        assert(rem@ =~= fullv.skip(0));
        assert(orig.take(0) =~= Seq::<SourceModel>::empty());
    }
    while rem.len() > 0
        invariant
            orig == views_of(fullv),
            rem@.len() <= fullv.len(),
            rem@ == fullv.skip(fullv.len() - rem@.len()),
            views_of(out@) == sort_ranked(orig.take(fullv.len() - rem@.len())),
            views_of(out@).to_multiset().add(views_of(rem@).to_multiset()) == orig.to_multiset(),
            ranked_sorted(views_of(out@)),
        decreases rem.len(),
    {
        let ghost k = fullv.len() - rem@.len();
        let ghost rem0 = views_of(rem@);
        let ghost out0 = views_of(out@);
        let x = rem.remove(0);
        proof {
            assert(rem@ =~= fullv.skip(k + 1));
            assert(views_of(rem@) =~= rem0.remove(0));
            assert(rem0.remove(0).to_multiset() == rem0.to_multiset().remove(rem0[0]));
            assert(rem0[0] == x@);
            assert(rem0.contains(x@));
            assert(x == fullv[k]);
            assert(x@ == orig[k]);
        }
        let mut j: usize = 0;
        while j < out.len() && ranked_before(&out[j], &x)
            invariant
                j <= out.len(),
                out0 == views_of(out@),
                ranked_sorted(out0),
                forall|k2: int| 0 <= k2 < j ==> ranked_le(#[trigger] out0[k2], x@),
            decreases out.len() - j,
        {
            j = j + 1;
        }
        proof {
            lemma_insert_sorted(out0, x@, j as int);
            lemma_insert_pos_at(out0, x@, j as int);
        }
        out.insert(j, x);
        proof {
            assert(views_of(out@) =~= out0.insert(j as int, x@));
            assert(views_of(out@) == insert_ranked(out0, x@));
            assert(orig.take(k + 1).drop_last() =~= orig.take(k));
            assert(orig.take(k + 1).last() == orig[k]);
            assert(sort_ranked(orig.take(k + 1)) == insert_ranked(sort_ranked(orig.take(k)), orig[k]));
            vstd::seq_lib::to_multiset_insert(out0, j as int, x@);
            assert(views_of(out@).to_multiset().add(views_of(rem@).to_multiset())
                =~= orig.to_multiset());
        }
    }
    proof {
        assert(views_of(rem@) =~= Seq::<SourceModel>::empty());
        assert(orig.take(fullv.len() as int) =~= orig);
        assert(views_of(out@).to_multiset() =~= orig.to_multiset());
    }
    out
}

/// Builds the ranked endpoint list from the text of a source listing and
/// the default sink name, where one is known: the result is exactly the
/// classified records of the listing in their stable ranked order.
pub fn discover_from_outputs(listing: &str, default_sink: Option<&String>) -> (r: Vec<AudioSource>)
    ensures
        views_of(r@) == sort_ranked(
            classified(parse_records(listing@), default_monitor_of(opt_str_view(default_sink))),
        ),
        views_of(r@).to_multiset() == classified(
            parse_records(listing@),
            default_monitor_of(opt_str_view(default_sink)),
        ).to_multiset(),
        ranked_sorted(views_of(r@)),
{
    let dm: Option<String> = match default_sink {
        Some(s) => Some(derive_default_monitor(s.as_str())),
        None => None,
    };
    let ghost dmv = default_monitor_of(opt_str_view(default_sink));
    let dmr: Option<&String> = dm.as_ref();
    let mut recs = parse_pactl_sources_output(listing);
    let ghost full = recs@;
    let ghost rseq = parse_records(listing@);
    let mut v: Vec<AudioSource> = Vec::new();
    proof {
        assert(recs@ =~= full.skip(0));
        assert(views_of(v@) =~= Seq::<SourceModel>::empty());
    }
    while recs.len() > 0
        invariant
            recs@.len() <= full.len(),
            recs@ == full.skip(full.len() - recs@.len()),
            rseq == parse_records(listing@),
            full.len() == rseq.len(),
            forall|i: int|
                0 <= i < full.len() ==> {
                    &&& (#[trigger] full[i]).0@ == rseq[i].0
                    &&& full[i].1@ == rseq[i].1
                    &&& full[i].2@ == rseq[i].2
                },
            opt_str_view(dmr) == dmv,
            views_of(v@) == classified(rseq, dmv).take(full.len() - recs@.len()),
        decreases recs.len(),
    {
        let ghost k = full.len() - recs@.len();
        let t = recs.remove(0);
        proof {
            assert(recs@ =~= full.skip(k + 1));
            assert(full.skip(k)[0] == full[k]);
        }
        let s = make_source(t.0, t.1, t.2, dmr);
        proof {
            assert(classify((full[k].0@, full[k].1@, full[k].2@), opt_str_view(dmr))
                == classify(rseq[k], dmv));
        }
        let ghost v0 = views_of(v@);
        v.push(s);
        proof {
            assert(views_of(v@) =~= v0.push(s@));
            assert(classified(rseq, dmv)[k] == classify(rseq[k], dmv));
            assert(views_of(v@) =~= classified(rseq, dmv).take(k + 1));
        }
    }
    proof {
        assert(classified(rseq, dmv).take(rseq.len() as int) =~= classified(rseq, dmv));
    }
    rank_sources(v)
}

proof fn lemma_dup_value_count<A>(s: Seq<A>, p: int, q: int)
    requires
        0 <= p < s.len(),
        0 <= q < s.len(),
        p != q,
        s[p] == s[q],
    ensures
        s.to_multiset().count(s[p]) >= 2,
{
    let t = s.remove(p);
    assert(t.to_multiset() == s.to_multiset().remove(s[p]));
    let q2: int = if q < p {
        q
    } else {
        q - 1
    };
    assert(t[q2] == s[q]);
    assert(t.contains(s[q]));
    assert(t.to_multiset().count(s[q]) > 0);
    assert(s.contains(s[p]));
    assert(s.to_multiset().count(s[p]) >= 2);
}

proof fn lemma_count_to_index<A>(s: Seq<A>, x: A)
    requires
        s.to_multiset().count(x) >= 1,
    ensures
        exists|p: int| 0 <= p < s.len() && s[p] == x,
{
    assert(s.to_multiset().contains(x));
    assert(s.contains(x));
}

proof fn lemma_count_to_two_indices<A>(s: Seq<A>, x: A)
    requires
        s.to_multiset().count(x) >= 2,
    ensures
        exists|p: int, q: int|
            0 <= p < s.len() && 0 <= q < s.len() && p != q && s[p] == x && s[q] == x,
{
    lemma_count_to_index(s, x);
    let p = choose|p: int| 0 <= p < s.len() && s[p] == x;
    let t = s.remove(p);
    assert(t.to_multiset() == s.to_multiset().remove(s[p]));
    assert(t.to_multiset().count(x) >= 1);
    lemma_count_to_index(t, x);
    let q2 = choose|q: int| 0 <= q < t.len() && t[q] == x;
    let q: int = if q2 < p {
        q2
    } else {
        q2 + 1
    };
    assert(s[q] == t[q2]);
    assert(0 <= p < s.len() && 0 <= q < s.len() && p != q && s[p] == x && s[q] == x);
}

/// In any list that holds, up to order, the classified records of a listing
/// with pairwise-distinct identifiers, at most one element is marked as the
/// system default.
pub proof fn lemma_at_most_one_default(
    v: Seq<SourceModel>,
    recs: Seq<(Seq<char>, Seq<char>, Seq<char>)>,
    dm: Option<Seq<char>>,
    p: int,
    q: int,
)
    requires
        v.to_multiset() == classified(recs, dm).to_multiset(),
        forall|i: int, j: int|
            0 <= i < j < recs.len() ==> (#[trigger] recs[i]).0 != (#[trigger] recs[j]).0,
        0 <= p < v.len(),
        0 <= q < v.len(),
        p != q,
        v[p].is_default,
    ensures
        !v[q].is_default,
{
    let c = classified(recs, dm);
    assert(c.len() == recs.len());
    assert forall|i: int| 0 <= i < c.len() implies #[trigger] c[i] == classify(recs[i], dm) by {}
    if v[q].is_default {
        if v[p] == v[q] {
            lemma_dup_value_count(v, p, q);
            lemma_count_to_two_indices(c, v[p]);
            let (i, j): (int, int) = choose|i: int, j: int|
                0 <= i < c.len() && 0 <= j < c.len() && i != j && c[i] == v[p] && c[j] == v[p];
            assert(recs[i].0 == c[i].name && recs[j].0 == c[j].name);
            assert(recs[i].0 == recs[j].0);
            if i < j {
                assert(recs[i].0 != recs[j].0);
            } else {
                assert(recs[j].0 != recs[i].0);
            }
        } else {
            assert(v.contains(v[p]));
            assert(v.to_multiset().count(v[p]) >= 1);
            assert(v.contains(v[q]));
            assert(v.to_multiset().count(v[q]) >= 1);
            lemma_count_to_index(c, v[p]);
            lemma_count_to_index(c, v[q]);
            let i = choose|i: int| 0 <= i < c.len() && c[i] == v[p];
            let j = choose|j: int| 0 <= j < c.len() && c[j] == v[q];
            assert(i != j);
            assert(c[i].is_default && c[j].is_default);
            match dm {
                Some(m) => {
                    assert(recs[i].0 == m && recs[j].0 == m);
                    if i < j {
                        assert(recs[i].0 != recs[j].0);
                    } else {
                        assert(recs[j].0 != recs[i].0);
                    }
                },
                None => {
                    assert(!c[i].is_default);
                },
            }
        }
    }
}

/// The best endpoint of a non-empty ranked list is always the first: its
/// score is at least every other element's score.
pub proof fn lemma_best_first(v: Seq<SourceModel>)
    requires
        ranked_sorted(v),
        v.len() > 0,
    ensures
        forall|i: int| 0 <= i < v.len() ==> spec_score(v[0]) >= spec_score(#[trigger] v[i]),
{
}

/// Elements of a ranked list with equal score stand in ascending lexical
/// order of their display label.
pub proof fn lemma_tie_break(v: Seq<SourceModel>, i: int, j: int)
    requires
        ranked_sorted(v),
        0 <= i < j < v.len(),
        spec_score(v[i]) == spec_score(v[j]),
    ensures
        lex_le(v[i].description, v[j].description),
{
}

/// The best endpoint of a non-empty ranked list is at index 0; no separate
/// scan is needed once the list is ranked.
pub fn get_best_source_index(sources: &[AudioSource]) -> (r: usize)
    requires
        sources@.len() > 0,
    ensures
        r == 0,
{
    0
}

/// Where `r` must land when a preferred identifier is remembered: the first
/// element carrying it, or the best-ranked index when none does.
pub open spec fn preferred_index_ok(v: Seq<SourceModel>, p: Seq<char>, r: int) -> bool {
    if exists|i: int| 0 <= i < v.len() && (#[trigger] v[i]).name == p {
        &&& 0 <= r < v.len()
        &&& v[r].name == p
        &&& forall|k: int| 0 <= k < r ==> (#[trigger] v[k]).name != p
    } else {
        r == 0
    }
}

/// Chooses the index of the remembered preferred endpoint if it is present
/// in the list, else the best-ranked index.
pub fn select_source_index(sources: &[AudioSource], preferred: Option<&String>) -> (r: usize)
    requires
        sources@.len() > 0,
    ensures
        r < sources@.len(),
        preferred is Some ==> preferred_index_ok(views_of(sources@), preferred.unwrap()@, r as int),
        preferred is None ==> r == 0,
{
    if preferred.is_none() {
        return get_best_source_index(sources);
    }
    let p: &String = preferred.unwrap();
    let n = sources.len();
    let mut i: usize = 0;
    while i < n
        invariant
            i <= n,
            n == sources@.len(),
            preferred is Some,
            p == preferred.unwrap(),
            forall|k: int| 0 <= k < i ==> (#[trigger] views_of(sources@)[k]).name != p@,
        decreases n - i,
    {
        if str_eq(sources[i].name.as_str(), p.as_str()) {
            proof {
                assert(views_of(sources@)[i as int].name == p@);
            }
            return i;
        }
        i = i + 1;
    }
    proof {
        assert forall|k: int|
            0 <= k < views_of(sources@).len() implies (#[trigger] views_of(sources@)[k]).name
            != p@ by {}
    }
    get_best_source_index(sources)
}

} // verus!
