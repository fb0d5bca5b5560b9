//! Counts of fire detections by confidence, satellite and day/night flag.
use vstd::prelude::*;
use crate::text::{
    chars_eq, chars_less, chars_of, lemma_text_less_asymmetric, lemma_text_less_irreflexive,
    lemma_text_less_total, lemma_text_less_transitive, owned, text_less, chars_views, label_views,
};

verus! {

/// The labels of one fire detection that the summary counts.
#[derive(Debug)]
pub struct DetectionLabels {
    pub confidence: String,
    pub satellite: String,
    pub day_night: Option<String>,
}

/// How many detections carry each label: each label once, in code-point order.
#[derive(Debug)]
pub struct ViirsFireSummary {
    pub by_confidence: Vec<(String, usize)>,
    pub by_satellite: Vec<(String, usize)>,
    pub by_day_night: Vec<(String, usize)>,
}

impl ViirsFireSummary {
    /// Each count lists its labels once, in strictly increasing code-point
    /// order, as the keys of a `BTreeMap<String, usize>`.
    pub open spec fn well_formed(self) -> bool {
        &&& sorted_keys(counts_view(self.by_confidence@))
        &&& sorted_keys(counts_view(self.by_satellite@))
        &&& sorted_keys(counts_view(self.by_day_night@))
    }
}

impl Default for ViirsFireSummary {
    fn default() -> (s: Self)
        ensures
            s.well_formed(),
            s.by_confidence@.len() == 0,
            s.by_satellite@.len() == 0,
            s.by_day_night@.len() == 0,
    {
        let s = ViirsFireSummary {
            by_confidence: Vec::new(),
            by_satellite: Vec::new(),
            by_day_night: Vec::new(),
        };
        assert(counts_view(s.by_confidence@).len() == 0);
        assert(counts_view(s.by_satellite@).len() == 0);
        assert(counts_view(s.by_day_night@).len() == 0);
        s
    }
}

/// How many times `k` occurs in `labels`.
pub open spec fn label_count(labels: Seq<Seq<char>>, k: Seq<char>) -> nat
    decreases labels.len(),
{
    if labels.len() == 0 {
        0
    } else {
        label_count(labels.drop_last(), k) + if labels.last() == k {
            1nat
        } else {
            0nat
        }
    }
}

/// Whether `k` is one of the keys of `t`.
pub open spec fn has_key(t: Seq<(Seq<char>, nat)>, k: Seq<char>) -> bool {
    exists|j: int| 0 <= j < t.len() && (#[trigger] t[j]).0 == k
}

/// One more occurrence of `k` in a table kept in key order: its count goes up
/// by one, or it is inserted, with count one, before the first greater key.
pub open spec fn add_label(t: Seq<(Seq<char>, nat)>, k: Seq<char>) -> Seq<(Seq<char>, nat)>
    decreases t.len(),
{
    if t.len() == 0 {
        seq![(k, 1nat)]
    } else if t[0].0 == k {
        seq![(k, t[0].1 + 1)] + t.drop_first()
    } else if text_less(k, t[0].0) {
        seq![(k, 1nat)] + t
    } else {
        seq![t[0]] + add_label(t.drop_first(), k)
    }
}

/// The tally of `labels`: each distinct label with its number of occurrences,
/// in key order, as a `BTreeMap<String, usize>` keeps them.
pub open spec fn tally(labels: Seq<Seq<char>>) -> Seq<(Seq<char>, nat)>
    decreases labels.len(),
{
    if labels.len() == 0 {
        Seq::empty()
    } else {
        add_label(tally(labels.drop_last()), labels.last())
    }
}

/// The count a table holds for `k` (zero where `k` is not a key).
pub open spec fn count_of(t: Seq<(Seq<char>, nat)>, k: Seq<char>) -> nat
    decreases t.len(),
{
    if t.len() == 0 {
        0
    } else if t[0].0 == k {
        t[0].1
    } else {
        count_of(t.drop_first(), k)
    }
}

/// The sum of the counts of a table.
pub open spec fn total(t: Seq<(Seq<char>, nat)>) -> nat
    decreases t.len(),
{
    if t.len() == 0 {
        0
    } else {
        t[0].1 + total(t.drop_first())
    }
}

/// Keys in strictly increasing order, hence each key once.
pub open spec fn sorted_keys(t: Seq<(Seq<char>, nat)>) -> bool {
    forall|i: int, j: int| 0 <= i < j < t.len() ==> text_less((#[trigger] t[i]).0, (#[trigger] t[j]).0)
}

pub open spec fn counts_view(v: Seq<(String, usize)>) -> Seq<(Seq<char>, nat)> {
    v.map_values(|p: (String, usize)| (p.0@, p.1 as nat))
}

proof fn lemma_label_views_push(s: Seq<String>, x: String)
    ensures
        label_views(s.push(x)) == label_views(s).push(x@),
{
    assert(label_views(s.push(x)) =~= label_views(s).push(x@));
}

proof fn lemma_counts_view_push(s: Seq<(String, usize)>, x: (String, usize))
    ensures
        counts_view(s.push(x)) == counts_view(s).push((x.0@, x.1 as nat)),
{
    assert(counts_view(s.push(x)) =~= counts_view(s).push((x.0@, x.1 as nat)));
}

pub open spec fn pairs_view(keys: Seq<String>, counts: Seq<usize>) -> Seq<(Seq<char>, nat)> {
    Seq::new(keys.len(), |j: int| (keys[j]@, counts[j] as nat))
}

/// Counts each distinct label of `labels`, keys in code-point order.
pub fn tally_labels(labels: &Vec<String>) -> (out: Vec<(String, usize)>)
    ensures
        counts_view(out@) == tally(label_views(labels@)),
{
    let n = labels.len();
    let ghost lv = label_views(labels@);
    let mut keys: Vec<String> = Vec::new();
    let mut key_chars: Vec<Vec<char>> = Vec::new();
    let mut counts: Vec<usize> = Vec::new();
    let mut i: usize = 0;
    while i < n
        invariant
            i <= n,
            n == labels.len(),
            lv == label_views(labels@),
            keys.len() == counts.len(),
            keys.len() == key_chars.len(),
            chars_views(key_chars@) == label_views(keys@),
            pairs_view(keys@, counts@) == tally(lv.subrange(0, i as int)),
            forall|j: int| 0 <= j < counts.len() ==> counts@[j] <= i,
        decreases n - i,
    {
        let ghost t = pairs_view(keys@, counts@);
        let ghost len = t.len();
        let k = chars_of(labels[i].as_str());
        assert(lv.subrange(0, i + 1).drop_last() =~= lv.subrange(0, i as int));
        assert(lv.subrange(0, i + 1).last() == k@);
        assert(t.subrange(0, 0) + t.subrange(0, len as int) =~= t);
        let mut j: usize = 0;
        while j < key_chars.len() && chars_less(&key_chars[j], &k)
            invariant
                j <= key_chars.len(),
                keys.len() == counts.len(),
                keys.len() == key_chars.len(),
                len == keys.len(),
                chars_views(key_chars@) == label_views(keys@),
                t == pairs_view(keys@, counts@),
                add_label(t, k@) == t.subrange(0, j as int) + add_label(
                    t.subrange(j as int, len as int),
                    k@,
                ),
            decreases key_chars.len() - j,
        {
            proof {
                let sub = t.subrange(j as int, len as int);
                assert(key_chars@[j as int]@ == label_views(keys@)[j as int]);
                assert(sub[0].0 == key_chars@[j as int]@);
                lemma_text_less_asymmetric(sub[0].0, k@);
                assert(sub.drop_first() =~= t.subrange(j + 1, len as int));
                assert(t.subrange(0, j + 1) =~= t.subrange(0, j as int) + seq![sub[0]]);
            }
            j = j + 1;
        }
        let ghost sub = t.subrange(j as int, len as int);
        if j < key_chars.len() && chars_eq(&key_chars[j], &k) {
            proof {
                assert(key_chars@[j as int]@ == label_views(keys@)[j as int]);
                assert(sub[0].0 == k@);
            }
            let c = counts[j];
            assert(c <= i);
            counts.set(j, c + 1);
            proof {
                assert(pairs_view(keys@, counts@) =~= t.subrange(0, j as int) + (seq![(k@, sub[0].1 + 1)] + sub.drop_first()));
            }
        } else {
            proof {
                if j < len {
                    assert(key_chars@[j as int]@ == label_views(keys@)[j as int]);
                    assert(sub[0].0 == key_chars@[j as int]@);
                    lemma_text_less_total(sub[0].0, k@);
                    assert(text_less(k@, sub[0].0));
                } else {
                    assert(sub =~= Seq::<(Seq<char>, nat)>::empty());
                }
            }
            let key = labels[i].clone();
            assert(key@ == k@);
            let ghost old_keys = keys@;
            let ghost old_chars = key_chars@;
            keys.insert(j, key);
            key_chars.insert(j, k);
            counts.insert(j, 1);
            proof {
                assert forall|m: int| 0 <= m < keys.len() implies #[trigger] chars_views(key_chars@)[m]
                    == label_views(keys@)[m] by {
                    if m < j {
                        assert(key_chars@[m] == old_chars[m] && keys@[m] == old_keys[m]);
                        assert(chars_views(old_chars)[m] == label_views(old_keys)[m]);
                    } else if m > j {
                        assert(key_chars@[m] == old_chars[m - 1] && keys@[m] == old_keys[m - 1]);
                        assert(chars_views(old_chars)[m - 1] == label_views(old_keys)[m - 1]);
                    }
                }
                assert(chars_views(key_chars@) =~= label_views(keys@));
                assert(pairs_view(keys@, counts@) =~= t.subrange(0, j as int) + (seq![(k@, 1nat)] + sub));
            }
        }
        i = i + 1;
    }
    assert(lv.subrange(0, n as int) =~= lv);
    let mut out: Vec<(String, usize)> = Vec::new();
    let mut j: usize = 0;
    while j < keys.len()
        invariant
            j <= keys.len(),
            keys.len() == counts.len(),
            counts_view(out@) == pairs_view(keys@, counts@).subrange(0, j as int),
        decreases keys.len() - j,
    {
        let key = keys[j].clone();
        assert(key@ == keys@[j as int]@);
        let ghost before = out@;
        let entry = (key, counts[j]);
        out.push(entry);
        proof {
            lemma_counts_view_push(before, entry);
        }
        j = j + 1;
        assert(counts_view(out@) =~= pairs_view(keys@, counts@).subrange(0, j as int));
    }
    assert(pairs_view(keys@, counts@).subrange(0, keys.len() as int) =~= pairs_view(keys@, counts@));
    out
}

pub open spec fn confidences(d: Seq<DetectionLabels>) -> Seq<Seq<char>> {
    d.map_values(|x: DetectionLabels| x.confidence@)
}

pub open spec fn satellites(d: Seq<DetectionLabels>) -> Seq<Seq<char>> {
    d.map_values(|x: DetectionLabels| x.satellite@)
}

/// The day/night flag of a detection, `unknown` where it has none.
pub open spec fn day_night_label(x: DetectionLabels) -> Seq<char> {
    match x.day_night {
        Some(s) => s@,
        None => "unknown"@,
    }
}

pub open spec fn day_night_labels(d: Seq<DetectionLabels>) -> Seq<Seq<char>> {
    d.map_values(|x: DetectionLabels| day_night_label(x))
}

/// Counts the detections by confidence, by satellite and by day/night flag.
pub fn summarize(detections: &Vec<DetectionLabels>) -> (s: ViirsFireSummary)
    ensures
        s.well_formed(),
        counts_view(s.by_confidence@) == tally(confidences(detections@)),
        counts_view(s.by_satellite@) == tally(satellites(detections@)),
        counts_view(s.by_day_night@) == tally(day_night_labels(detections@)),
{
    let mut conf: Vec<String> = Vec::new();
    let mut sat: Vec<String> = Vec::new();
    let mut dn: Vec<String> = Vec::new();
    let mut i: usize = 0;
    while i < detections.len()
        invariant
            i <= detections.len(),
            label_views(conf@) == confidences(detections@).subrange(0, i as int),
            label_views(sat@) == satellites(detections@).subrange(0, i as int),
            label_views(dn@) == day_night_labels(detections@).subrange(0, i as int),
        decreases detections.len() - i,
    {
        let d = &detections[i];
        let c = d.confidence.clone();
        let s = d.satellite.clone();
        let flag = match &d.day_night {
            Some(f) => f.clone(),
            None => owned("unknown"),
        };
        proof {
            lemma_label_views_push(conf@, c);
            lemma_label_views_push(sat@, s);
            lemma_label_views_push(dn@, flag);
            assert(flag@ == day_night_label(detections@[i as int]));
        }
        conf.push(c);
        sat.push(s);
        dn.push(flag);
        i = i + 1;
        assert(label_views(conf@) =~= confidences(detections@).subrange(0, i as int));
        assert(label_views(sat@) =~= satellites(detections@).subrange(0, i as int));
        assert(label_views(dn@) =~= day_night_labels(detections@).subrange(0, i as int));
    }
    assert(confidences(detections@).subrange(0, i as int) =~= confidences(detections@));
    assert(satellites(detections@).subrange(0, i as int) =~= satellites(detections@));
    assert(day_night_labels(detections@).subrange(0, i as int) =~= day_night_labels(detections@));
    proof {
        lemma_tally_is_a_count(confidences(detections@));
        lemma_tally_is_a_count(satellites(detections@));
        lemma_tally_is_a_count(day_night_labels(detections@));
    }
    ViirsFireSummary {
        by_confidence: tally_labels(&conf),
        by_satellite: tally_labels(&sat),
        by_day_night: tally_labels(&dn),
    }
}

proof fn lemma_has_key_split(t: Seq<(Seq<char>, nat)>, x: Seq<char>)
    requires
        t.len() > 0,
    ensures
        has_key(t, x) <==> (t[0].0 == x || has_key(t.drop_first(), x)),
{
    let rest = t.drop_first();
    if has_key(t, x) && t[0].0 != x {
        let j = choose|j: int| 0 <= j < t.len() && (#[trigger] t[j]).0 == x;
        assert(rest[j - 1] == t[j]);
    }
    if has_key(rest, x) {
        let j = choose|j: int| 0 <= j < rest.len() && (#[trigger] rest[j]).0 == x;
        assert(t[j + 1] == rest[j]);
    }
    if t[0].0 == x {
        assert(t[0].0 == x);
    }
}

proof fn lemma_absent_count_zero(t: Seq<(Seq<char>, nat)>, k: Seq<char>)
    requires
        !has_key(t, k),
    ensures
        count_of(t, k) == 0,
    decreases t.len(),
{
    if t.len() > 0 {
        lemma_has_key_split(t, k);
        lemma_absent_count_zero(t.drop_first(), k);
    }
}

proof fn lemma_sorted_rest(t: Seq<(Seq<char>, nat)>)
    requires
        sorted_keys(t),
        t.len() > 0,
    ensures
        sorted_keys(t.drop_first()),
        forall|j: int| 0 <= j < t.drop_first().len() ==> text_less(t[0].0, (#[trigger] t.drop_first()[j]).0),
{
    let rest = t.drop_first();
    assert forall|i: int, j: int| 0 <= i < j < rest.len() implies text_less(
        (#[trigger] rest[i]).0,
        (#[trigger] rest[j]).0,
    ) by {
        assert(rest[i] == t[i + 1] && rest[j] == t[j + 1]);
    }
    assert forall|j: int| 0 <= j < rest.len() implies text_less(t[0].0, (#[trigger] rest[j]).0) by {
        assert(rest[j] == t[j + 1]);
    }
}

proof fn lemma_add_label(t: Seq<(Seq<char>, nat)>, k: Seq<char>)
    requires
        sorted_keys(t),
        forall|i: int| 0 <= i < t.len() ==> (#[trigger] t[i]).1 >= 1,
    ensures
        sorted_keys(add_label(t, k)),
        forall|i: int| 0 <= i < add_label(t, k).len() ==> (#[trigger] add_label(t, k)[i]).1 >= 1,
        forall|x: Seq<char>|
            #[trigger] count_of(add_label(t, k), x) == count_of(t, x) + if x == k {
                1nat
            } else {
                0nat
            },
        forall|x: Seq<char>| #[trigger] has_key(add_label(t, k), x) <==> (has_key(t, x) || x == k),
        total(add_label(t, k)) == total(t) + 1,
    decreases t.len(),
{
    let a = add_label(t, k);
    if t.len() == 0 {
        assert(a.drop_first() =~= Seq::<(Seq<char>, nat)>::empty());
        assert forall|x: Seq<char>| #[trigger] has_key(a, x) <==> (has_key(t, x) || x == k) by {
            lemma_has_key_split(a, x);
        }
        assert forall|x: Seq<char>|
            #[trigger] count_of(a, x) == count_of(t, x) + if x == k {
                1nat
            } else {
                0nat
            } by {
            assert(count_of(a.drop_first(), x) == 0);
        }
        assert(total(a.drop_first()) == 0);
    } else {
        let rest = t.drop_first();
        lemma_sorted_rest(t);
        if t[0].0 == k {
            assert(a.drop_first() =~= rest);
            assert forall|i: int| 0 <= i < a.len() implies (#[trigger] a[i]).0 == t[i].0 by {
                if i > 0 {
                    assert(a[i] == rest[i - 1]);
                }
            }
            assert forall|i: int, j: int| 0 <= i < j < a.len() implies text_less(
                (#[trigger] a[i]).0,
                (#[trigger] a[j]).0,
            ) by {
                assert(a[i].0 == t[i].0 && a[j].0 == t[j].0);
            }
            assert forall|i: int| 0 <= i < a.len() implies (#[trigger] a[i]).1 >= 1 by {
                if i > 0 {
                    assert(a[i] == t[i]);
                }
            }
            assert forall|x: Seq<char>| #[trigger] has_key(a, x) <==> (has_key(t, x) || x == k) by {
                lemma_has_key_split(a, x);
                lemma_has_key_split(t, x);
            }
            assert forall|x: Seq<char>|
                #[trigger] count_of(a, x) == count_of(t, x) + if x == k {
                    1nat
                } else {
                    0nat
                } by {
                if x != k {
                    assert(count_of(a, x) == count_of(rest, x));
                    assert(count_of(t, x) == count_of(rest, x));
                }
            }
            assert(total(a) == (t[0].1 + 1) + total(rest));
        } else if text_less(k, t[0].0) {
            lemma_text_less_asymmetric(k, t[0].0);
            assert(a.drop_first() =~= t);
            assert(!has_key(t, k)) by {
                if has_key(t, k) {
                    let j = choose|j: int| 0 <= j < t.len() && (#[trigger] t[j]).0 == k;
                    assert(j != 0);
                    assert(text_less(t[0].0, t[j].0));
                    lemma_text_less_asymmetric(t[0].0, k);
                }
            }
            lemma_absent_count_zero(t, k);
            assert forall|i: int, j: int| 0 <= i < j < a.len() implies text_less(
                (#[trigger] a[i]).0,
                (#[trigger] a[j]).0,
            ) by {
                assert(a[j] == t[j - 1]);
                if i == 0 {
                    if j > 1 {
                        assert(text_less(t[0].0, t[j - 1].0));
                        lemma_text_less_transitive(k, t[0].0, t[j - 1].0);
                    }
                } else {
                    assert(a[i] == t[i - 1]);
                }
            }
            assert forall|i: int| 0 <= i < a.len() implies (#[trigger] a[i]).1 >= 1 by {
                if i > 0 {
                    assert(a[i] == t[i - 1]);
                }
            }
            assert forall|x: Seq<char>| #[trigger] has_key(a, x) <==> (has_key(t, x) || x == k) by {
                lemma_has_key_split(a, x);
            }
            assert forall|x: Seq<char>|
                #[trigger] count_of(a, x) == count_of(t, x) + if x == k {
                    1nat
                } else {
                    0nat
                } by {
                if x != k {
                    assert(count_of(a, x) == count_of(t, x));
                }
            }
            assert(total(a) == 1 + total(t));
        } else {
            lemma_text_less_total(k, t[0].0);
            assert(text_less(t[0].0, k));
            let b = add_label(rest, k);
            assert forall|i: int| 0 <= i < rest.len() implies (#[trigger] rest[i]).1 >= 1 by {
                assert(rest[i] == t[i + 1]);
            }
            lemma_add_label(rest, k);
            assert(a.drop_first() =~= b);
            assert forall|i: int, j: int| 0 <= i < j < a.len() implies text_less(
                (#[trigger] a[i]).0,
                (#[trigger] a[j]).0,
            ) by {
                assert(a[j] == b[j - 1]);
                if i == 0 {
                    let y = b[j - 1].0;
                    assert(has_key(b, y));
                    if y != k {
                        assert(has_key(rest, y));
                        let m = choose|m: int| 0 <= m < rest.len() && (#[trigger] rest[m]).0 == y;
                        assert(text_less(t[0].0, rest[m].0));
                    }
                } else {
                    assert(a[i] == b[i - 1]);
                }
            }
            assert forall|i: int| 0 <= i < a.len() implies (#[trigger] a[i]).1 >= 1 by {
                if i > 0 {
                    assert(a[i] == b[i - 1]);
                }
            }
            assert forall|x: Seq<char>|
                #[trigger] count_of(a, x) == count_of(t, x) + if x == k {
                    1nat
                } else {
                    0nat
                } by {
                assert(count_of(b, x) == count_of(rest, x) + if x == k {
                    1nat
                } else {
                    0nat
                });
            }
            assert forall|x: Seq<char>| #[trigger] has_key(a, x) <==> (has_key(t, x) || x == k) by {
                lemma_has_key_split(a, x);
                lemma_has_key_split(t, x);
                assert(has_key(b, x) <==> (has_key(rest, x) || x == k));
            }
            assert(total(a) == t[0].1 + total(b));
            assert(total(t) == t[0].1 + total(rest));
        }
    }
}

proof fn lemma_sorted_count_of(t: Seq<(Seq<char>, nat)>)
    requires
        sorted_keys(t),
    ensures
        forall|i: int| 0 <= i < t.len() ==> count_of(t, (#[trigger] t[i]).0) == t[i].1,
    decreases t.len(),
{
    if t.len() > 0 {
        let rest = t.drop_first();
        lemma_sorted_rest(t);
        lemma_sorted_count_of(rest);
        assert forall|i: int| 0 <= i < t.len() implies count_of(t, (#[trigger] t[i]).0) == t[i].1 by {
            if i > 0 {
                assert(t[i] == rest[i - 1]);
                lemma_text_less_asymmetric(t[0].0, t[i].0);
            }
        }
    }
}

/// A tally is a count: its labels come in strictly increasing code-point order
/// (so each at most once), every label of the input appears in it, each count
/// is the label's number of occurrences (at least one), and the counts add up
/// to the number of labels. So each part of a fire summary accounts for every
/// detection exactly once.
pub proof fn lemma_tally_is_a_count(labels: Seq<Seq<char>>)
    ensures
        sorted_keys(tally(labels)),
        forall|x: Seq<char>| #[trigger] count_of(tally(labels), x) == label_count(labels, x),
        forall|i: int|
            0 <= i < tally(labels).len() ==> (#[trigger] tally(labels)[i]).1 == label_count(
                labels,
                tally(labels)[i].0,
            ) && tally(labels)[i].1 >= 1,
        forall|j: int| 0 <= j < labels.len() ==> has_key(tally(labels), #[trigger] labels[j]),
        total(tally(labels)) == labels.len(),
    decreases labels.len(),
{
    let t = tally(labels);
    if labels.len() == 0 {
        assert(t.len() == 0);
    } else {
        let init = labels.drop_last();
        let k = labels.last();
        let t0 = tally(init);
        lemma_tally_is_a_count(init);
        lemma_add_label(t0, k);
        assert(t == add_label(t0, k));
        assert forall|x: Seq<char>| #[trigger] count_of(t, x) == label_count(labels, x) by {
            assert(count_of(t0, x) == label_count(init, x));
        }
        lemma_sorted_count_of(t);
        assert forall|i: int| 0 <= i < t.len() implies (#[trigger] t[i]).1 == label_count(
            labels,
            t[i].0,
        ) && t[i].1 >= 1 by {
            assert(count_of(t, t[i].0) == label_count(labels, t[i].0));
        }
        assert forall|j: int| 0 <= j < labels.len() implies has_key(t, #[trigger] labels[j]) by {
            if j < init.len() {
                assert(labels[j] == init[j]);
                assert(has_key(t0, init[j]));
            }
            assert(has_key(t, labels[j]) <==> (has_key(t0, labels[j]) || labels[j] == k));
        }
    }
}

/// Each of the three counts of a summary accounts for every detection once.
pub proof fn lemma_summary_covers_every_detection(d: Seq<DetectionLabels>)
    ensures
        total(tally(confidences(d))) == d.len(),
        total(tally(satellites(d))) == d.len(),
        total(tally(day_night_labels(d))) == d.len(),
{
    lemma_tally_is_a_count(confidences(d));
    lemma_tally_is_a_count(satellites(d));
    lemma_tally_is_a_count(day_night_labels(d));
}

} // verus!
