use vstd::prelude::*;
use vstd::seq_lib::to_multiset_insert;
use vstd::seq_lib::lemma_multiset_commutative;
use vstd::arithmetic::mul::lemma_mul_is_distributive_add_other_way;
use vstd::arithmetic::mul::lemma_mul_inequality;
use vstd::arithmetic::mul::lemma_mul_upper_bound;
use crate::error::FortuneError;
use crate::pattern::Matcher;
use crate::pattern::pattern_ok;
use crate::rng::random_below;
use crate::strfile::Strfile;
use crate::strfile::index_ok;
use crate::strfile::decoded_from;
use crate::strfile::numstr_of;
use crate::strfile::passes_filter;

verus! {

/// The sum of the selection weights of the first `k` sources.
pub open spec fn weight_sum(jars: Seq<Strfile>, k: int) -> int
    decreases k,
{
    if k <= 0 {
        0
    } else {
        weight_sum(jars, k - 1) + jars[k - 1].weight
    }
}

/// The explicit percentage a source carries, as a number: zero where none
/// was declared.
pub open spec fn explicit_part(s: Strfile) -> int {
    match s.explicit {
        Some(p) => p as int,
        None => 0,
    }
}

/// The record count a source contributes to weight normalization: zero for
/// a source with an explicit percentage.
pub open spec fn unweighted_part(s: Strfile) -> int {
    match s.explicit {
        Some(_) => 0,
        None => s.dat.numstr as int,
    }
}

/// The sum of the explicit percentages of the first `k` sources.
pub open spec fn sum_explicit(jars: Seq<Strfile>, k: int) -> int
    decreases k,
{
    if k <= 0 {
        0
    } else {
        sum_explicit(jars, k - 1) + explicit_part(jars[k - 1])
    }
}

/// The summed record counts of the unweighted ones among the first `k`
/// sources.
pub open spec fn sum_unweighted(jars: Seq<Strfile>, k: int) -> int
    decreases k,
{
    if k <= 0 {
        0
    } else {
        sum_unweighted(jars, k - 1) + unweighted_part(jars[k - 1])
    }
}

/// The common scale that normalized weights are numerators over: the summed
/// record counts of the unweighted sources, or one where there are none.
pub open spec fn spec_scale(jars: Seq<Strfile>) -> int {
    if sum_unweighted(jars, jars.len() as int) == 0 {
        1
    } else {
        sum_unweighted(jars, jars.len() as int)
    }
}

/// The weight that normalization gives a source: an explicit percentage is
/// kept (scaled), and the rest of the probability mass is split over the
/// unweighted sources by record count.
pub open spec fn normalized_weight(s: Strfile, se: int, scale: int) -> int {
    match s.explicit {
        Some(p) => p as int * scale,
        None => (100 - se) * s.dat.numstr as int,
    }
}

/// Weight sums grow with their range.
pub proof fn lemma_weight_sum_mono(jars: Seq<Strfile>, k1: int, k2: int)
    requires
        k1 <= k2,
    ensures
        weight_sum(jars, k1) <= weight_sum(jars, k2),
    decreases k2 - k1,
{
    if k1 < k2 {
        lemma_weight_sum_mono(jars, k1, k2 - 1);
    }
}

/// Explicit-percentage sums grow with their range.
pub proof fn lemma_sum_explicit_mono(jars: Seq<Strfile>, k1: int, k2: int)
    requires
        k1 <= k2,
    ensures
        sum_explicit(jars, k1) <= sum_explicit(jars, k2),
    decreases k2 - k1,
{
    if k1 < k2 {
        lemma_sum_explicit_mono(jars, k1, k2 - 1);
    }
}

/// Unweighted-count sums grow with their range.
pub proof fn lemma_sum_unweighted_mono(jars: Seq<Strfile>, k1: int, k2: int)
    requires
        k1 <= k2,
    ensures
        sum_unweighted(jars, k1) <= sum_unweighted(jars, k2),
    decreases k2 - k1,
{
    if k1 < k2 {
        lemma_sum_unweighted_mono(jars, k1, k2 - 1);
    }
}

/// Each source's explicit percentage is at most the whole explicit sum.
pub proof fn lemma_explicit_part_le_sum(jars: Seq<Strfile>, j: int, k: int)
    requires
        0 <= j < k,
    ensures
        explicit_part(jars[j]) <= sum_explicit(jars, k),
    decreases k,
{
    lemma_sum_explicit_mono(jars, j + 1, k);
    lemma_sum_explicit_mono(jars, 0, j);
}

/// Sources that all weigh one sum to their count: the equal-size mode's
/// weight distribution.
pub proof fn lemma_unit_weight_sum(jars: Seq<Strfile>, k: int)
    requires
        0 <= k <= jars.len(),
        forall|j: int| 0 <= j < jars.len() ==> (#[trigger] jars[j].weight) == 1,
    ensures
        weight_sum(jars, k) == k,
    decreases k,
{
    if k > 0 {
        lemma_unit_weight_sum(jars, k - 1);
    }
}

/// Lexicographic order on texts, code point by code point.
pub open spec fn lex_le(a: Seq<char>, b: Seq<char>) -> bool
    decreases a.len(),
{
    if a.len() == 0 {
        true
    } else if b.len() == 0 {
        false
    } else if a[0] == b[0] {
        lex_le(a.drop_first(), b.drop_first())
    } else {
        a[0] < b[0]
    }
}

/// Lexicographic order is total.
pub proof fn lemma_lex_le_total(a: Seq<char>, b: Seq<char>)
    ensures
        lex_le(a, b) || lex_le(b, a),
    decreases a.len(),
{
    if a.len() > 0 && b.len() > 0 && a[0] == b[0] {
        lemma_lex_le_total(a.drop_first(), b.drop_first());
    }
}

/// Lexicographic order is transitive.
pub proof fn lemma_lex_le_trans(a: Seq<char>, b: Seq<char>, c: Seq<char>)
    requires
        lex_le(a, b),
        lex_le(b, c),
    ensures
        lex_le(a, c),
    decreases a.len(),
{
    if a.len() > 0 && b.len() > 0 && c.len() > 0 && a[0] == b[0] && b[0] == c[0] {
        lemma_lex_le_trans(a.drop_first(), b.drop_first(), c.drop_first());
    }
}

/// Relies on str's `<=`: string slices order lexicographically by byte
/// value, which over UTF-8 text agrees with code-point order.
#[verifier::external_body]
fn str_le(a: &str, b: &str) -> (r: bool)
    ensures
        r == lex_le(a@, b@),
{
    a <= b
}

/// The sources stand in ascending name order.
pub open spec fn sorted_by_name(jars: Seq<Strfile>) -> bool {
    forall|i: int, j: int| 0 <= i <= j < jars.len() ==> lex_le(jars[i].name@, jars[j].name@)
}

/// Sorts sources by name in ascending lexicographic order, keeping exactly
/// the same sources.
fn sort_jars(v: Vec<Strfile>) -> (r: Vec<Strfile>)
    ensures
        sorted_by_name(r@),
        r@.to_multiset() == v@.to_multiset(),
        r@.len() == v@.len(),
{
    broadcast use vstd::seq_lib::group_to_multiset_ensures;
    broadcast use vstd::multiset::group_multiset_axioms;

    let ghost orig = v@;
    let mut rem = v;
    let mut out: Vec<Strfile> = Vec::new();
    assert(out@.to_multiset().add(rem@.to_multiset()) =~= orig.to_multiset());
    while rem.len() > 0
        invariant
            sorted_by_name(out@),
            out@.to_multiset().add(rem@.to_multiset()) == orig.to_multiset(),
            out@.len() + rem@.len() == orig.len(),
        decreases rem@.len(),
    {
        let ghost pre_rem = rem@;
        let x = rem.remove(0);
        proof {
            vstd::seq_lib::to_multiset_remove(pre_rem, 0);
            vstd::seq_lib::to_multiset_contains(pre_rem, x);
        }
        let mut idx: usize = 0;
        while idx < out.len() && str_le(out[idx].name.as_str(), x.name.as_str())
            invariant
                idx <= out@.len(),
                forall|m: int| 0 <= m < idx ==> lex_le((#[trigger] out@[m]).name@, x.name@),
            decreases out@.len() - idx,
        {
            idx += 1;
        }
        proof {
            if idx < out@.len() {
                lemma_lex_le_total(out@[idx as int].name@, x.name@);
            }
            assert forall|m: int| idx <= m < out@.len() implies lex_le(
                x.name@,
                (#[trigger] out@[m]).name@,
            ) by {
                lemma_lex_le_trans(x.name@, out@[idx as int].name@, out@[m].name@);
            }
        }
        let ghost pre_out = out@;
        out.insert(idx, x);
        proof {
            to_multiset_insert(pre_out, idx as int, pre_rem[0]);
            assert(out@.to_multiset().add(rem@.to_multiset()) =~= orig.to_multiset());
            assert forall|m1: int, m2: int| 0 <= m1 <= m2 < out@.len() implies lex_le(
                out@[m1].name@,
                out@[m2].name@,
            ) by {
                assert(forall|m: int| 0 <= m < idx ==> out@[m] == pre_out[m]);
                assert(forall|m: int| idx < m < out@.len() ==> out@[m] == pre_out[m - 1]);
                if m1 == m2 {
                    lemma_lex_le_total(out@[m1].name@, out@[m2].name@);
                }
            }
        }
    }
    proof {
        assert(out@.to_multiset() =~= orig.to_multiset());
    }
    out
}

/// Two sources hold the same name, path, index and text; only the weighting
/// may differ.
pub open spec fn same_source(a: Strfile, b: Strfile) -> bool {
    &&& a.name@ == b.name@
    &&& a.path@ == b.path@
    &&& a.dat == b.dat
    &&& a.text@ == b.text@
}

/// `njars` is `orig` after weight normalization: every source keeps its
/// identity and explicit percentage, and carries the normalized weight.
pub open spec fn normalized_from(njars: Seq<Strfile>, orig: Seq<Strfile>) -> bool {
    &&& njars.len() == orig.len()
    &&& forall|j: int|
        0 <= j < njars.len() ==> {
            &&& same_source(orig[j], #[trigger] njars[j])
            &&& njars[j].explicit == orig[j].explicit
            &&& njars[j].weight == normalized_weight(
                orig[j],
                sum_explicit(orig, orig.len() as int),
                spec_scale(orig),
            )
        }
}

/// After normalization the weights total the explicit percentages scaled,
/// plus the remaining mass split over the unweighted sources.
pub proof fn lemma_normalized_weight_sum(
    orig: Seq<Strfile>,
    njars: Seq<Strfile>,
    se: int,
    scale: int,
    k: int,
)
    requires
        0 <= k <= orig.len(),
        njars.len() == orig.len(),
        forall|j: int|
            0 <= j < njars.len() ==> (#[trigger] njars[j]).explicit == orig[j].explicit
                && njars[j].weight == normalized_weight(orig[j], se, scale),
    ensures
        weight_sum(njars, k) == sum_explicit(orig, k) * scale + (100 - se) * sum_unweighted(
            orig,
            k,
        ),
    decreases k,
{
    if k > 0 {
        lemma_normalized_weight_sum(orig, njars, se, scale, k - 1);
        match orig[k - 1].explicit {
            Some(p) => {
                lemma_mul_is_distributive_add_other_way(scale, sum_explicit(orig, k - 1), p as int);
            },
            None => {
                vstd::arithmetic::mul::lemma_mul_is_distributive_add(
                    100 - se,
                    sum_unweighted(orig, k - 1),
                    orig[k - 1].dat.numstr as int,
                );
            },
        }
    }
}

/// After weight normalization the weights are all non-negative and sum to
/// exactly 100 over the common scale: a probability distribution over the
/// sources.  This needs some source to be unweighted with records, or the
/// explicit percentages to reach 100: otherwise the explicit weights alone
/// stand and their sum stays short of 100.
pub proof fn lemma_weights_sum_to_100(orig: Seq<Strfile>, njars: Seq<Strfile>)
    requires
        normalized_from(njars, orig),
        sum_explicit(orig, orig.len() as int) <= 100,
        sum_unweighted(orig, orig.len() as int) > 0 || sum_explicit(orig, orig.len() as int)
            == 100,
    ensures
        weight_sum(njars, njars.len() as int) == 100 * spec_scale(orig),
        forall|j: int| 0 <= j < njars.len() ==> (#[trigger] njars[j]).weight >= 0,
{
    let n = orig.len() as int;
    let se = sum_explicit(orig, n);
    let u = sum_unweighted(orig, n);
    let scale = spec_scale(orig);
    lemma_normalized_weight_sum(orig, njars, se, scale, n);
    if u > 0 {
        vstd::arithmetic::mul::lemma_mul_is_distributive_sub_other_way(u, 100, se);
    }
}

/// With every source at weight one — the equal-size mode — draw `r` selects
/// source `r` and no other: selection is uniform over the sources, whatever
/// their record counts.
pub proof fn lemma_equal_weights_uniform(jars: Seq<Strfile>, r: int)
    requires
        forall|j: int| 0 <= j < jars.len() ==> (#[trigger] jars[j].weight) == 1,
        0 <= r < jars.len(),
    ensures
        weight_sum(jars, jars.len() as int) == jars.len(),
        weight_sum(jars, r) <= r < weight_sum(jars, r + 1),
        forall|j: int|
            0 <= j < jars.len() && j != r ==> !((#[trigger] weight_sum(jars, j)) <= r
                < weight_sum(jars, j + 1)),
{
    lemma_unit_weight_sum(jars, jars.len() as int);
    lemma_unit_weight_sum(jars, r);
    lemma_unit_weight_sum(jars, r + 1);
    assert forall|j: int|
        0 <= j < jars.len() && j != r implies !((#[trigger] weight_sum(jars, j)) <= r
        < weight_sum(jars, j + 1)) by {
        lemma_unit_weight_sum(jars, j);
        lemma_unit_weight_sum(jars, j + 1);
    }
}

/// Some record of the source passes the length filter.
pub open spec fn jar_has_match(s: Strfile, slen: u32, long_only: bool, short_only: bool) -> bool {
    exists|i: int|
        0 <= i < s.dat.numstr && #[trigger] passes_filter(
            s.dat.spec_record_len(i),
            slen,
            long_only,
            short_only,
        )
}

/// Every record of the source that passes the length filter starts within
/// the text.
pub open spec fn jar_picks_in_bounds(
    s: Strfile,
    slen: u32,
    long_only: bool,
    short_only: bool,
) -> bool {
    forall|i: int|
        0 <= i < s.dat.numstr && #[trigger] passes_filter(
            s.dat.spec_record_len(i),
            slen,
            long_only,
            short_only,
        ) ==> s.dat.seekpts@[i] <= s.text@.len()
}

/// `text` is the scan-extracted text of some record of `s` that passes the
/// length filter.
pub open spec fn picked_from(
    text: Seq<u8>,
    s: Strfile,
    slen: u32,
    long_only: bool,
    short_only: bool,
) -> bool {
    exists|i: int|
        0 <= i < s.dat.numstr && #[trigger] passes_filter(
            s.dat.spec_record_len(i),
            slen,
            long_only,
            short_only,
        ) && s.dat.seekpts@[i] <= s.text@.len() && text == s.spec_record_text(i)
}

/// One cookie file's raw data, as read from disk by the caller: the name and
/// path it goes by, its declared percentage weight if any, the bytes of its
/// binary index and the bytes of its text.
pub struct Cookie {
    /// The source's name.
    pub name: String,
    /// The path of the text file, kept for listings.
    pub path: String,
    /// The declared percentage weight, if one was given.
    pub weight: Option<u32>,
    /// The binary index file's bytes.
    pub dat: Vec<u8>,
    /// The text file's bytes.
    pub text: Vec<u8>,
}

/// The equal share of a directory's declared percentage that each of its
/// `count` cookie files receives; no declared percentage splits into none.
pub fn split_weight(val: Option<u32>, count: usize) -> (r: Option<u32>)
    requires
        count > 0,
    ensures
        match val {
            Some(v) => r == Some((v as int / count as int) as u32),
            None => r is None,
        },
{
    match val {
        Some(v) => Some((v as u64 / count as u64) as u32),
        None => None,
    }
}

/// `s` is the source that loading the cookie data `c` yields.
pub open spec fn loaded_from(s: Strfile, c: Cookie) -> bool {
    &&& s.name@ == c.name@
    &&& s.path@ == c.path@
    &&& s.text@ == c.text@
    &&& s.explicit == c.weight
    &&& index_ok(c.dat@)
    &&& decoded_from(s.dat, c.dat@)
    &&& s.dat.wf()
    &&& s.weight == match c.weight {
        Some(p) => p as int,
        None => numstr_of(c.dat@) as int,
    }
}

/// The text of one retrieved fortune, with the name of the source it came
/// from.
pub struct PickedFortune {
    /// The name of the cookie file the text came from.
    pub source: String,
    /// The record's text.
    pub text: Vec<u8>,
}

/// One search hit: a record's text with the name of the source it stands in.
pub struct SearchMatch {
    /// The name of the cookie file the record stands in.
    pub source: String,
    /// The record's text.
    pub text: Vec<u8>,
}

/// The search hits of one source, each paired with the source's name.
pub open spec fn jar_pairs(
    s: Strfile,
    pat: Seq<char>,
    ci: bool,
    slen: u32,
    long_only: bool,
    short_only: bool,
) -> Seq<(Seq<char>, Seq<u8>)> {
    s.spec_search_results(pat, ci, slen, long_only, short_only, s.dat.numstr as int).map_values(
        |t: Seq<u8>| (s.name@, t),
    )
}

/// The search hits of the first `upto` sources, in collection order and
/// record order.
pub open spec fn collection_results(
    jars: Seq<Strfile>,
    pat: Seq<char>,
    ci: bool,
    slen: u32,
    long_only: bool,
    short_only: bool,
    upto: int,
) -> Seq<(Seq<char>, Seq<u8>)>
    decreases upto,
{
    if upto <= 0 {
        Seq::empty()
    } else {
        collection_results(jars, pat, ci, slen, long_only, short_only, upto - 1) + jar_pairs(
            jars[upto - 1],
            pat,
            ci,
            slen,
            long_only,
            short_only,
        )
    }
}

/// Every record of the first `upto` sources lies within its source's text.
pub open spec fn all_in_bounds(jars: Seq<Strfile>, upto: int) -> bool {
    forall|j: int, i: int|
        0 <= j < upto && 0 <= i < jars[j].dat.numstr ==> #[trigger] jars[j].record_in_bounds(i)
}

/// The fortune reader: a set of weighted sources and the active filters.
pub struct Fortune {
    /// The length in bytes up to which a record counts as short.
    pub slen: u32,
    /// Keep only records longer than the threshold.
    pub long_only: bool,
    /// Keep only records no longer than the threshold.
    pub short_only: bool,
    /// Report the cookie file a fortune came from.
    pub show_file: bool,
    /// Allow potentially offensive sources besides the ordinary ones.
    pub all_forts: bool,
    /// Choose among potentially offensive sources only.
    pub offend: bool,
    /// The cookie files, kept sorted by name.
    pub jars: Vec<Strfile>,
}

impl Fortune {
    /// The collection is internally consistent: the two length filters are
    /// never both active, and every source's index is well formed.
    pub open spec fn wf(self) -> bool {
        &&& !(self.long_only && self.short_only)
        &&& forall|j: int| 0 <= j < self.jars@.len() ==> (#[trigger] self.jars@[j]).dat.wf()
    }

    /// The sum of all selection weights.
    pub open spec fn spec_total(self) -> int {
        weight_sum(self.jars@, self.jars@.len() as int)
    }

    /// Select only long records.
    pub fn long_only(self) -> (r: Fortune)
        ensures
            r == (Fortune { long_only: true, short_only: false, ..self }),
    {
        Fortune { long_only: true, short_only: false, ..self }
    }

    /// Select only short records.
    pub fn short_only(self) -> (r: Fortune)
        ensures
            r == (Fortune { long_only: false, short_only: true, ..self }),
    {
        Fortune { long_only: false, short_only: true, ..self }
    }

    /// Set the length in bytes up to which a record counts as short.
    pub fn short_len(self, n: u32) -> (r: Fortune)
        ensures
            r == (Fortune { slen: n, ..self }),
    {
        Fortune { slen: n, ..self }
    }

    /// Report the cookie file a fortune came from.
    pub fn show_file(self) -> (r: Fortune)
        ensures
            r == (Fortune { show_file: true, ..self }),
    {
        Fortune { show_file: true, ..self }
    }

    /// Allow both offensive and ordinary sources.
    pub fn all(self) -> (r: Fortune)
        ensures
            r == (Fortune { all_forts: true, offend: false, ..self }),
    {
        Fortune { all_forts: true, offend: false, ..self }
    }

    /// Choose among potentially offensive sources only.
    pub fn offensive(self) -> (r: Fortune)
        ensures
            r == (Fortune { all_forts: false, offend: true, ..self }),
    {
        Fortune { all_forts: false, offend: true, ..self }
    }

    /// Give every source the same weight, one: fairness per file instead of
    /// fairness per record.
    pub fn equal_size(self) -> (r: Fortune)
        ensures
            r.jars@.len() == self.jars@.len(),
            forall|j: int|
                0 <= j < r.jars@.len() ==> same_source(self.jars@[j], #[trigger] r.jars@[j])
                    && r.jars@[j].weight == 1 && r.jars@[j].explicit == Some(1u32),
            r.slen == self.slen,
            r.long_only == self.long_only,
            r.short_only == self.short_only,
            r.show_file == self.show_file,
            r.all_forts == self.all_forts,
            r.offend == self.offend,
            self.wf() ==> r.wf(),
    {
        let Fortune { slen, long_only, short_only, show_file, all_forts, offend, jars } = self;
        let ghost orig = jars@;
        let mut rem = jars;
        let mut nj: Vec<Strfile> = Vec::new();
        while rem.len() > 0
            invariant
                nj@.len() + rem@.len() == orig.len(),
                rem@ =~= orig.subrange(nj@.len() as int, orig.len() as int),
                forall|j: int|
                    0 <= j < nj@.len() ==> same_source(orig[j], #[trigger] nj@[j])
                        && nj@[j].weight == 1 && nj@[j].explicit == Some(1u32),
            decreases rem@.len(),
        {
            let ghost pre = rem@;
            let c = rem.remove(0);
            proof {
                assert(pre.remove(0) =~= orig.subrange(nj@.len() as int + 1, orig.len() as int));
            }
            nj.push(
                Strfile {
                    name: c.name,
                    path: c.path,
                    weight: 1,
                    explicit: Some(1u32),
                    dat: c.dat,
                    text: c.text,
                },
            );
        }
        Fortune { slen, long_only, short_only, show_file, all_forts, offend, jars: nj }
    }

    /// Adds the given cookie files as sources and keeps the collection
    /// sorted by name.
    ///
    /// Fails with `NotFound` exactly when no cookie data was handed in, and
    /// with `Format` when some index among them is malformed; the collection
    /// is unchanged then.
    pub fn load(&mut self, files: Vec<Cookie>) -> (r: Result<(), FortuneError>)
        ensures
            match r {
                Ok(()) => {
                    &&& files@.len() > 0
                    &&& forall|k: int| 0 <= k < files@.len() ==> index_ok((#[trigger] files@[k]).dat@)
                    &&& final(self).jars@.len() == old(self).jars@.len() + files@.len()
                    &&& sorted_by_name(final(self).jars@)
                    &&& exists|mid: Seq<Strfile>|
                        #![trigger mid.to_multiset()]
                        {
                            &&& mid.len() == files@.len()
                            &&& (forall|k: int|
                                0 <= k < mid.len() ==> loaded_from(#[trigger] mid[k], files@[k]))
                            &&& final(self).jars@.to_multiset() == old(
                                self,
                            ).jars@.to_multiset().add(mid.to_multiset())
                        }
                    &&& final(self).slen == old(self).slen
                    &&& final(self).long_only == old(self).long_only
                    &&& final(self).short_only == old(self).short_only
                    &&& final(self).show_file == old(self).show_file
                    &&& final(self).all_forts == old(self).all_forts
                    &&& final(self).offend == old(self).offend
                    &&& old(self).wf() ==> final(self).wf()
                },
                Err(e) => {
                    &&& *final(self) == *old(self)
                    &&& (e == FortuneError::NotFound <==> files@.len() == 0)
                    &&& (e == FortuneError::Format ==> exists|k: int|
                        0 <= k < files@.len() && !index_ok(files@[k].dat@))
                    &&& (e == FortuneError::NotFound || e == FortuneError::Format)
                },
            },
    {
        broadcast use vstd::seq_lib::group_to_multiset_ensures;
        broadcast use vstd::multiset::group_multiset_axioms;

        if files.len() == 0 {
            return Err(FortuneError::NotFound);
        }
        let ghost forig = files@;
        let mut fs = files;
        let mut mids: Vec<Strfile> = Vec::new();
        while fs.len() > 0
            invariant
                forig == files@,
                forig.len() > 0,
                mids@.len() + fs@.len() == forig.len(),
                fs@ =~= forig.subrange(mids@.len() as int, forig.len() as int),
                forall|k: int| 0 <= k < mids@.len() ==> loaded_from(#[trigger] mids@[k], forig[k]),
            decreases fs@.len(),
        {
            let ghost pre = fs@;
            let c = fs.remove(0);
            proof {
                assert(pre.remove(0) =~= forig.subrange(mids@.len() as int + 1, forig.len() as int));
                assert(c == forig[mids@.len() as int]);
            }
            let sf = crate::strfile::new();
            let jar = match sf.load(
                c.name.as_str(),
                c.path.as_str(),
                c.text,
                c.dat.as_slice(),
                c.weight,
            ) {
                Ok(j) => j,
                Err(e) => {
                    return Err(e);
                },
            };
            mids.push(jar);
        }
        let ghost midseq = mids@;

        let mut all: Vec<Strfile> = Vec::new();
        std::mem::swap(&mut all, &mut self.jars);
        let ghost oldjars = all@;
        let mut ms = mids;
        all.append(&mut ms);
        proof {
            lemma_multiset_commutative(oldjars, midseq);
        }
        let sorted = sort_jars(all);
        self.jars = sorted;
        proof {
            assert(self.jars@.to_multiset() == oldjars.to_multiset().add(midseq.to_multiset()));
            assert forall|k: int| 0 <= k < files@.len() implies index_ok(
                (#[trigger] files@[k]).dat@,
            ) by {
                assert(loaded_from(midseq[k], forig[k]));
            }
            assert forall|j: int|
                0 <= j < self.jars@.len() && old(self).wf() implies (
            #[trigger] self.jars@[j]).dat.wf() by {
                let x = self.jars@[j];
                vstd::seq_lib::to_multiset_contains(self.jars@, x);
                vstd::seq_lib::to_multiset_contains(oldjars + midseq, x);
                let q = choose|q: int|
                    0 <= q < (oldjars + midseq).len() && (oldjars + midseq)[q] == x;
                if q < oldjars.len() {
                    assert(old(self).jars@[q].dat.wf());
                } else {
                    assert(midseq[q - oldjars.len()].dat.wf());
                }
            }
        }
        Ok(())
    }

    /// Rescales the weights so that, conceptually, they sum to 100 percent:
    /// a source with an explicit percentage keeps it, and the remaining mass
    /// is split over the unweighted sources in proportion to their record
    /// counts.  All weights are numerators over the common scale.
    ///
    /// Fails exactly when the explicit percentages sum over 100.
    pub fn normalize_weights(self) -> (r: Result<Fortune, FortuneError>)
        ensures
            match r {
                Ok(f) => {
                    &&& sum_explicit(self.jars@, self.jars@.len() as int) <= 100
                    &&& normalized_from(f.jars@, self.jars@)
                    &&& weight_sum(f.jars@, f.jars@.len() as int) == sum_explicit(
                        self.jars@,
                        self.jars@.len() as int,
                    ) * spec_scale(self.jars@) + (100 - sum_explicit(
                        self.jars@,
                        self.jars@.len() as int,
                    )) * sum_unweighted(self.jars@, self.jars@.len() as int)
                    &&& f.slen == self.slen
                    &&& f.long_only == self.long_only
                    &&& f.short_only == self.short_only
                    &&& f.show_file == self.show_file
                    &&& f.all_forts == self.all_forts
                    &&& f.offend == self.offend
                    &&& self.wf() ==> f.wf()
                },
                Err(e) => e == FortuneError::Weight && sum_explicit(
                    self.jars@,
                    self.jars@.len() as int,
                ) > 100,
            },
    {
        let n = self.jars.len();
        let mut se: u32 = 0;
        let mut i: usize = 0;
        while i < n
            invariant
                i <= n,
                n == self.jars@.len(),
                se == sum_explicit(self.jars@, i as int),
                se <= 100,
            decreases n - i,
        {
            match self.jars[i].explicit {
                Some(p) => {
                    if p > 100 - se {
                        proof {
                            lemma_sum_explicit_mono(self.jars@, i + 1, n as int);
                        }
                        return Err(FortuneError::Weight);
                    }
                    se = se + p;
                },
                None => {},
            }
            i += 1;
        }
        proof {
            lemma_sum_unweighted_mono(self.jars@, 0, n as int);
        }

        let mut u: u128 = 0;
        let mut i: usize = 0;
        while i < n
            invariant
                i <= n,
                n == self.jars@.len(),
                n <= usize::MAX,
                u == sum_unweighted(self.jars@, i as int),
                u <= (i as int) * 0xffff_ffff,
            decreases n - i,
        {
            match self.jars[i].explicit {
                Some(_) => {},
                None => {
                    let c = self.jars[i].dat.numstr;
                    u = u + (c as u128);
                },
            }
            i += 1;
        }
        let ghost specscale = spec_scale(self.jars@);
        let scale: u128 = if u == 0 {
            1
        } else {
            u
        };
        assert(scale == specscale);
        assert(scale <= 0x1_0000_0000_0000_0000 * 0xffff_ffff) by {
            lemma_mul_inequality(n as int, 0x1_0000_0000_0000_0000, 0xffff_ffff);
        }
        let rem: u32 = 100 - se;

        let Fortune { slen, long_only, short_only, show_file, all_forts, offend, jars } = self;
        let ghost orig = jars@;
        let mut remj = jars;
        let mut nj: Vec<Strfile> = Vec::new();
        while remj.len() > 0
            invariant
                nj@.len() + remj@.len() == orig.len(),
                remj@ =~= orig.subrange(nj@.len() as int, orig.len() as int),
                se == sum_explicit(orig, orig.len() as int),
                se <= 100,
                rem == 100 - se,
                scale == spec_scale(orig),
                scale <= 0x1_0000_0000_0000_0000 * 0xffff_ffff,
                forall|j: int|
                    0 <= j < nj@.len() ==> same_source(orig[j], #[trigger] nj@[j]) && nj@[j].explicit
                        == orig[j].explicit && nj@[j].weight == normalized_weight(
                        orig[j],
                        se as int,
                        scale as int,
                    ),
            decreases remj@.len(),
        {
            let ghost pre = remj@;
            let ghost k = nj@.len() as int;
            let c = remj.remove(0);
            proof {
                assert(pre.remove(0) =~= orig.subrange(k + 1, orig.len() as int));
                assert(c == orig[k]);
            }
            let w: u128 = match c.explicit {
                Some(p) => {
                    proof {
                        lemma_explicit_part_le_sum(orig, k, orig.len() as int);
                        lemma_mul_inequality(p as int, 100, scale as int);
                    }
                    (p as u128) * scale
                },
                None => {
                    proof {
                        lemma_mul_upper_bound(rem as int, 100, c.dat.numstr as int, 0xffff_ffff);
                    }
                    (rem as u128) * (c.dat.numstr as u128)
                },
            };
            nj.push(
                Strfile {
                    name: c.name,
                    path: c.path,
                    weight: w,
                    explicit: c.explicit,
                    dat: c.dat,
                    text: c.text,
                },
            );
        }
        proof {
            lemma_normalized_weight_sum(orig, nj@, se as int, scale as int, orig.len() as int);
        }
        Ok(Fortune { slen, long_only, short_only, show_file, all_forts, offend, jars: nj })
    }

    /// The sum of all selection weights.
    pub fn total_weight(&self) -> (t: u128)
        requires
            self.spec_total() <= u128::MAX,
        ensures
            t as int == self.spec_total(),
    {
        let n = self.jars.len();
        let mut acc: u128 = 0;
        let mut i: usize = 0;
        while i < n
            invariant
                i <= n,
                n == self.jars@.len(),
                acc == weight_sum(self.jars@, i as int),
                weight_sum(self.jars@, n as int) <= u128::MAX,
            decreases n - i,
        {
            proof {
                lemma_weight_sum_mono(self.jars@, i as int + 1, n as int);
            }
            acc = acc + self.jars[i].weight;
            i += 1;
        }
        acc
    }

    /// Chooses a source at random, each with probability proportional to
    /// its weight.
    fn pick_jar(&self) -> (j: usize)
        requires
            0 < self.spec_total() <= u128::MAX,
        ensures
            j < self.jars@.len(),
            self.jars@[j as int].weight > 0,
    {
        let total = self.total_weight();
        let r = random_below(total);
        weighted_index(&self.jars, r)
    }

    /// One fortune, drawn at random: a random source, weighted, then a
    /// random record among those of the source that pass the length filter,
    /// extracted by separator-scanning and decoded when the source is
    /// rotated.
    ///
    /// Fails with `NotFound` exactly when the weights sum to zero, with
    /// `NoMatch` when the chosen source has no record that passes the
    /// filter, and with `Bounds` when the chosen record starts beyond its
    /// source's text; whenever every positively-weighted source has a
    /// passing record within bounds, a fortune is returned.
    pub fn print(&self) -> (r: Result<PickedFortune, FortuneError>)
        requires
            self.wf(),
            self.spec_total() <= u128::MAX,
        ensures
            match r {
                Ok(p) => exists|j: int|
                    0 <= j < self.jars@.len() && (#[trigger] self.jars@[j]).weight > 0
                        && p.source@ == self.jars@[j].name@ && picked_from(
                        p.text@,
                        self.jars@[j],
                        self.slen,
                        self.long_only,
                        self.short_only,
                    ),
                Err(e) => {
                    ||| (e == FortuneError::NotFound && self.spec_total() == 0)
                    ||| (e == FortuneError::NoMatch && exists|j: int|
                        0 <= j < self.jars@.len() && (#[trigger] self.jars@[j]).weight > 0
                            && !jar_has_match(
                            self.jars@[j],
                            self.slen,
                            self.long_only,
                            self.short_only,
                        ))
                    ||| (e == FortuneError::Bounds && exists|j: int|
                        0 <= j < self.jars@.len() && (#[trigger] self.jars@[j]).weight > 0
                            && !jar_picks_in_bounds(
                            self.jars@[j],
                            self.slen,
                            self.long_only,
                            self.short_only,
                        ))
                },
            },
            r == Err::<PickedFortune, FortuneError>(FortuneError::NotFound) <==> self.spec_total()
                == 0,
            (self.spec_total() > 0 && (forall|j: int|
                0 <= j < self.jars@.len() && (#[trigger] self.jars@[j]).weight > 0 ==> jar_has_match(
                    self.jars@[j],
                    self.slen,
                    self.long_only,
                    self.short_only,
                ) && jar_picks_in_bounds(
                    self.jars@[j],
                    self.slen,
                    self.long_only,
                    self.short_only,
                ))) ==> r is Ok,
    {
        let total = self.total_weight();
        if total == 0 {
            return Err(FortuneError::NotFound);
        }
        let j = self.pick_jar();
        let jar = &self.jars[j];
        match jar.print_one(self.slen, self.long_only, self.short_only) {
            Ok(text) => Ok(PickedFortune { source: jar.name.clone(), text }),
            Err(e) => Err(e),
        }
    }

    /// The records, across all sources in collection order and in record
    /// order within a source, that pass the length filter and match the
    /// compiled pattern, each with its source's name.
    ///
    /// Fails exactly when some record's offsets do not lie within its
    /// source's text: no partial result is returned then.
    pub fn search_with(&self, m: &Matcher) -> (r: Result<Vec<SearchMatch>, FortuneError>)
        requires
            self.wf(),
        ensures
            match r {
                Ok(v) => {
                    &&& all_in_bounds(self.jars@, self.jars@.len() as int)
                    &&& v@.len() == collection_results(
                        self.jars@,
                        m.spec_pattern(),
                        m.spec_ci(),
                        self.slen,
                        self.long_only,
                        self.short_only,
                        self.jars@.len() as int,
                    ).len()
                    &&& forall|k: int|
                        0 <= k < v@.len() ==> (#[trigger] v@[k]).source@ == collection_results(
                            self.jars@,
                            m.spec_pattern(),
                            m.spec_ci(),
                            self.slen,
                            self.long_only,
                            self.short_only,
                            self.jars@.len() as int,
                        )[k].0 && v@[k].text@ == collection_results(
                            self.jars@,
                            m.spec_pattern(),
                            m.spec_ci(),
                            self.slen,
                            self.long_only,
                            self.short_only,
                            self.jars@.len() as int,
                        )[k].1
                },
                Err(e) => e == FortuneError::Bounds && !all_in_bounds(
                    self.jars@,
                    self.jars@.len() as int,
                ),
            },
    {
        let ghost pat = m.spec_pattern();
        let ghost ci = m.spec_ci();
        let n = self.jars.len();
        let mut out: Vec<SearchMatch> = Vec::new();
        let mut j: usize = 0;
        while j < n
            invariant
                j <= n,
                n == self.jars@.len(),
                self.wf(),
                pat == m.spec_pattern(),
                ci == m.spec_ci(),
                forall|q: int, i: int|
                    0 <= q < j && 0 <= i < self.jars@[q].dat.numstr
                        ==> #[trigger] self.jars@[q].record_in_bounds(i),
                out@.len() == collection_results(
                    self.jars@,
                    pat,
                    ci,
                    self.slen,
                    self.long_only,
                    self.short_only,
                    j as int,
                ).len(),
                forall|k: int|
                    0 <= k < out@.len() ==> (#[trigger] out@[k]).source@ == collection_results(
                        self.jars@,
                        pat,
                        ci,
                        self.slen,
                        self.long_only,
                        self.short_only,
                        j as int,
                    )[k].0 && out@[k].text@ == collection_results(
                        self.jars@,
                        pat,
                        ci,
                        self.slen,
                        self.long_only,
                        self.short_only,
                        j as int,
                    )[k].1,
            decreases n - j,
        {
            let ghost prev = collection_results(
                self.jars@,
                pat,
                ci,
                self.slen,
                self.long_only,
                self.short_only,
                j as int,
            );
            let jar = &self.jars[j];
            let mut texts = match jar.print_matches(m, self.slen, self.long_only, self.short_only) {
                Ok(v) => v,
                Err(e) => {
                    return Err(e);
                },
            };
            let tlen = texts.len();
            assert(tlen as int == texts@.len());
            let ghost torig = texts@;
            let ghost pairs = jar_pairs(*jar, pat, ci, self.slen, self.long_only, self.short_only);
            let mut c: usize = 0;
            proof {
                assert(pairs.len() == torig.len());
            }
            while texts.len() > 0
                invariant
                    torig.len() <= usize::MAX,
                    c + texts@.len() == torig.len(),
                    texts@ =~= torig.subrange(c as int, torig.len() as int),
                    pairs.len() == torig.len(),
                    jar.name@ == pairs[0].0 || pairs.len() == 0,
                    forall|k: int|
                        0 <= k < pairs.len() ==> (#[trigger] pairs[k]).0 == jar.name@ && pairs[k].1
                            == torig[k]@,
                    out@.len() == prev.len() + c,
                    forall|k: int|
                        0 <= k < prev.len() ==> (#[trigger] out@[k]).source@ == prev[k].0
                            && out@[k].text@ == prev[k].1,
                    forall|k: int|
                        prev.len() <= k < out@.len() ==> (#[trigger] out@[k]).source@ == pairs[k
                            - prev.len()].0 && out@[k].text@ == pairs[k - prev.len()].1,
                decreases texts@.len(),
            {
                let ghost tpre = texts@;
                let t = texts.remove(0);
                proof {
                    assert(tpre.remove(0) =~= torig.subrange(c as int + 1, torig.len() as int));
                    assert(t@ == torig[c as int]@);
                }
                out.push(SearchMatch { source: jar.name.clone(), text: t });
                c += 1;
            }
            proof {
                let cur = collection_results(
                    self.jars@,
                    pat,
                    ci,
                    self.slen,
                    self.long_only,
                    self.short_only,
                    j as int + 1,
                );
                assert(cur == prev + pairs);
            }
            j += 1;
        }
        Ok(out)
    }

    /// The records, across all sources in collection order and in record
    /// order within a source, that pass the length filter and match the
    /// pattern, each with its source's name.  The pattern is compiled fresh:
    /// re-invoking the search re-scans everything.
    ///
    /// Fails with `Format` exactly when the regex engine refuses the
    /// pattern, and with `Bounds` exactly when the pattern is accepted but
    /// some record's offsets do not lie within its source's text: an
    /// accepted pattern over in-bounds sources always yields the matches.
    pub fn search(&self, pat: &str, case_insensitive: bool) -> (r: Result<
        Vec<SearchMatch>,
        FortuneError,
    >)
        requires
            self.wf(),
        ensures
            match r {
                Ok(v) => {
                    &&& pattern_ok(pat@, case_insensitive)
                    &&& all_in_bounds(self.jars@, self.jars@.len() as int)
                    &&& v@.len() == collection_results(
                        self.jars@,
                        pat@,
                        case_insensitive,
                        self.slen,
                        self.long_only,
                        self.short_only,
                        self.jars@.len() as int,
                    ).len()
                    &&& forall|k: int|
                        0 <= k < v@.len() ==> (#[trigger] v@[k]).source@ == collection_results(
                            self.jars@,
                            pat@,
                            case_insensitive,
                            self.slen,
                            self.long_only,
                            self.short_only,
                            self.jars@.len() as int,
                        )[k].0 && v@[k].text@ == collection_results(
                            self.jars@,
                            pat@,
                            case_insensitive,
                            self.slen,
                            self.long_only,
                            self.short_only,
                            self.jars@.len() as int,
                        )[k].1
                },
                Err(e) => {
                    ||| (e == FortuneError::Format && !pattern_ok(pat@, case_insensitive))
                    ||| (e == FortuneError::Bounds && pattern_ok(pat@, case_insensitive)
                        && !all_in_bounds(self.jars@, self.jars@.len() as int))
                },
            },
            r == Err::<Vec<SearchMatch>, FortuneError>(FortuneError::Format) <==> !pattern_ok(
                pat@,
                case_insensitive,
            ),
            (pattern_ok(pat@, case_insensitive) && all_in_bounds(
                self.jars@,
                self.jars@.len() as int,
            )) ==> r is Ok,
    {
        let m = match Matcher::new(pat, case_insensitive) {
            Ok(m) => m,
            Err(_) => {
                return Err(FortuneError::Format);
            },
        };
        self.search_with(&m)
    }
}

/// The index of the source that draw `r` falls on: the weights partition
/// `[0, total)` into consecutive spans, and `r` lands in source `j`'s span.
pub fn weighted_index(jars: &Vec<Strfile>, r: u128) -> (j: usize)
    requires
        (r as int) < weight_sum(jars@, jars@.len() as int),
    ensures
        j < jars@.len(),
        weight_sum(jars@, j as int) <= r as int,
        (r as int) < weight_sum(jars@, j as int + 1),
        jars@[j as int].weight > 0,
{
    let n = jars.len();
    let mut acc: u128 = 0;
    let mut j: usize = 0;
    while j < n
        invariant
            j <= n,
            n == jars@.len(),
            acc == weight_sum(jars@, j as int),
            acc <= r,
            (r as int) < weight_sum(jars@, n as int),
        decreases n - j,
    {
        let w = jars[j].weight;
        if r - acc < w {
            return j;
        }
        acc = acc + w;
        j += 1;
    }
    proof {
        assert(false);
    }
    0
}

/// A fresh fortune reader: no sources, a threshold of 160 bytes, and no
/// filter active.
pub fn new() -> (r: Fortune)
    ensures
        r.slen == 160,
        !r.long_only,
        !r.short_only,
        !r.show_file,
        !r.all_forts,
        !r.offend,
        r.jars@.len() == 0,
        r.wf(),
        r.spec_total() == 0,
{
    Fortune {
        slen: 160,
        long_only: false,
        short_only: false,
        show_file: false,
        all_forts: false,
        offend: false,
        jars: Vec::new(),
    }
}

} // verus!
