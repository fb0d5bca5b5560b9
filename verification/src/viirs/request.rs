//! Checks on a VIIRS fire request, the choice of where its CSV comes from, and
//! the filter and limit applied to the detections it yields.
use vstd::prelude::*;
use crate::text::{label_views, trim_str, trimmed};
use crate::viirs::source::{
    confidence_rank, normalize_source, spec_confidence_rank, spec_normalize_source,
};

verus! {

/// Why a VIIRS fire request is refused.
#[derive(Debug)]
pub enum ViirsError {
    /// The source names none of the FIRMS VIIRS sources; it carries the name given.
    UnsupportedSource(String),
    /// The day range lies outside 1 through 5.
    DayRange,
    /// The bounding box is not a finite box inside the globe.
    Bounds,
    /// The minimum confidence is not low, nominal or high.
    MinConfidence,
}

/// The view of an optional string.
pub open spec fn opt_view(o: Option<String>) -> Option<Seq<char>> {
    match o {
        Some(s) => Some(s@),
        None => None,
    }
}

/// Whether the FIRMS Area API accepts this day range.
pub open spec fn day_range_ok(day_range: u8) -> bool {
    1 <= day_range <= 5
}

/// Whether the minimum confidence, if any, is a known level.
pub open spec fn min_confidence_ok(min_confidence: Option<Seq<char>>) -> bool {
    match min_confidence {
        Some(m) => spec_confidence_rank(m) is Some,
        None => true,
    }
}

/// Checks a request in this order: its source, its day range, its bounds
/// (unless it asks for the whole world; `bounds_valid` says whether the box is
/// finite, ordered west < east and south < north, and inside the globe), and
/// its minimum confidence.
pub fn validate_request(
    source: &str,
    day_range: u8,
    world: bool,
    bounds_valid: bool,
    min_confidence: &Option<String>,
) -> (res: Result<(), ViirsError>)
    ensures
        spec_normalize_source(source@) is None ==> (res matches Err(
            ViirsError::UnsupportedSource(s),
        ) && s@ == source@),
        spec_normalize_source(source@) is Some && !day_range_ok(day_range) ==> res matches Err(
            ViirsError::DayRange,
        ),
        spec_normalize_source(source@) is Some && day_range_ok(day_range) && !world
            && !bounds_valid ==> res matches Err(ViirsError::Bounds),
        spec_normalize_source(source@) is Some && day_range_ok(day_range) && (world
            || bounds_valid) && !min_confidence_ok(opt_view(*min_confidence)) ==> res matches Err(
            ViirsError::MinConfidence,
        ),
        spec_normalize_source(source@) is Some && day_range_ok(day_range) && (world
            || bounds_valid) && min_confidence_ok(opt_view(*min_confidence)) ==> res is Ok,
{
    match normalize_source(source) {
        Err(e) => {
            return Err(e);
        },
        Ok(_) => {},
    }
    if day_range == 0 || day_range > 5 {
        return Err(ViirsError::DayRange);
    }
    if !world && !bounds_valid {
        return Err(ViirsError::Bounds);
    }
    match min_confidence {
        Some(m) => {
            if confidence_rank(m.as_str()).is_none() {
                return Err(ViirsError::MinConfidence);
            }
        },
        None => {},
    }
    Ok(())
}

/// Whether a detection of confidence `confidence` passes the confidence floor.
pub open spec fn confidence_passes(min_confidence: Option<Seq<char>>, confidence: Seq<char>) -> bool {
    match min_confidence {
        None => true,
        Some(m) => match (spec_confidence_rank(m), spec_confidence_rank(confidence)) {
            (Some(min_rank), Some(rank)) => rank >= min_rank,
            _ => false,
        },
    }
}

/// Whether a detection is kept: it lies in the box (or the request covers the
/// world), its fire radiative power passes the floor (`frp_passes`, decided on
/// the float values), and its confidence ranks at least the requested minimum.
/// A detection of unknown confidence fails any confidence floor.
pub open spec fn spec_detection_matches(
    world: bool,
    inside_bounds: bool,
    frp_passes: bool,
    min_confidence: Option<Seq<char>>,
    confidence: Seq<char>,
) -> bool {
    &&& world || inside_bounds
    &&& frp_passes
    &&& confidence_passes(min_confidence, confidence)
}

pub fn detection_matches_request(
    world: bool,
    inside_bounds: bool,
    frp_passes: bool,
    min_confidence: &Option<String>,
    confidence: &str,
) -> (b: bool)
    ensures
        b == spec_detection_matches(
            world,
            inside_bounds,
            frp_passes,
            opt_view(*min_confidence),
            confidence@,
        ),
{
    if !world && !inside_bounds {
        return false;
    }
    if !frp_passes {
        return false;
    }
    match min_confidence {
        Some(m) => {
            let min_rank = match confidence_rank(m.as_str()) {
                Some(r) => r,
                None => {
                    return false;
                },
            };
            let rank = match confidence_rank(confidence) {
                Some(r) => r,
                None => {
                    return false;
                },
            };
            rank >= min_rank
        },
        None => true,
    }
}

/// The confidence test compares ranks: with no floor only the box and the power
/// floor decide; with a floor and a detection of known levels, the detection
/// passes exactly when its rank (low 0, nominal 1, high 2) is at least the
/// floor's; a floor or a detection of unknown level never passes.
pub proof fn lemma_confidence_floor_compares_ranks(
    world: bool,
    inside_bounds: bool,
    frp_passes: bool,
    min_confidence: Option<Seq<char>>,
    confidence: Seq<char>,
)
    ensures
        min_confidence is None ==> (spec_detection_matches(
            world,
            inside_bounds,
            frp_passes,
            min_confidence,
            confidence,
        ) <==> ((world || inside_bounds) && frp_passes)),
        min_confidence matches Some(m) ==> (spec_detection_matches(
            world,
            inside_bounds,
            frp_passes,
            min_confidence,
            confidence,
        ) <==> ((world || inside_bounds) && frp_passes && spec_confidence_rank(m) is Some
            && spec_confidence_rank(confidence) is Some && spec_confidence_rank(confidence)->0
            >= spec_confidence_rank(m)->0)),
{
}

/// Raising the confidence floor never lets more detections through: a detection
/// that passes a floor passes every known floor of no higher rank.
pub proof fn lemma_lower_floor_keeps_more(
    world: bool,
    inside_bounds: bool,
    frp_passes: bool,
    low_floor: Seq<char>,
    high_floor: Seq<char>,
    confidence: Seq<char>,
)
    requires
        spec_confidence_rank(low_floor) is Some,
        spec_confidence_rank(high_floor) is Some,
        spec_confidence_rank(low_floor)->0 <= spec_confidence_rank(high_floor)->0,
        spec_detection_matches(world, inside_bounds, frp_passes, Some(high_floor), confidence),
    ensures
        spec_detection_matches(world, inside_bounds, frp_passes, Some(low_floor), confidence),
        spec_detection_matches(world, inside_bounds, frp_passes, None, confidence),
{
}

/// The items whose flag is set, in their input order.
pub open spec fn flagged<T>(items: Seq<T>, keep: Seq<bool>) -> Seq<T>
    decreases items.len(),
{
    if items.len() == 0 {
        Seq::empty()
    } else {
        let n = items.len() - 1;
        let before = flagged(items.subrange(0, n), keep.subrange(0, n));
        if keep[n] {
            before.push(items[n])
        } else {
            before
        }
    }
}

/// `s` cut to at most `limit` items, as `Vec::truncate` does.
pub open spec fn limited<T>(s: Seq<T>, limit: Option<usize>) -> Seq<T> {
    match limit {
        Some(l) => if l < s.len() {
            s.subrange(0, l as int)
        } else {
            s
        },
        None => s,
    }
}

/// Keeps the items whose flag is set, in order, then at most the first `limit` of them.
pub fn retain_and_limit<T>(items: Vec<T>, keep: &Vec<bool>, limit: Option<usize>) -> (out: Vec<T>)
    requires
        keep.len() == items.len(),
    ensures
        out@ == limited(flagged(items@, keep@), limit),
{
    let n = items.len();
    let ghost all = items@;
    let mut rest = items;
    let mut reversed: Vec<T> = Vec::new();
    while rest.len() > 0
        invariant
            n == all.len(),
            rest.len() <= n,
            rest@ == all.subrange(0, rest.len() as int),
            reversed.len() == n - rest.len(),
            forall|j: int| 0 <= j < reversed.len() ==> #[trigger] reversed@[j] == all[n - 1 - j],
        decreases rest.len(),
    {
        let x = rest.pop().unwrap();
        reversed.push(x);
        assert(rest@ =~= all.subrange(0, rest.len() as int));
    }
    let mut out: Vec<T> = Vec::new();
    let mut i: usize = 0;
    while i < n
        invariant
            i <= n,
            n == keep.len(),
            n == all.len(),
            reversed.len() == n - i,
            forall|j: int| 0 <= j < reversed.len() ==> #[trigger] reversed@[j] == all[n - 1 - j],
            out@ == flagged(all.subrange(0, i as int), keep@.subrange(0, i as int)),
        decreases n - i,
    {
        let x = reversed.pop().unwrap();
        assert(x == all[i as int]);
        proof {
            let next = all.subrange(0, i + 1);
            assert(next.subrange(0, i as int) =~= all.subrange(0, i as int));
            assert(keep@.subrange(0, i + 1).subrange(0, i as int) =~= keep@.subrange(0, i as int));
        }
        if keep[i] {
            out.push(x);
        }
        i = i + 1;
    }
    assert(all.subrange(0, n as int) =~= all);
    assert(keep@.subrange(0, n as int) =~= keep@);
    match limit {
        Some(l) => {
            out.truncate(l);
        },
        None => {},
    }
    out
}

/// Whether each detection of a run is kept: detection `i` lies in the box when
/// `inside[i]`, passes the power floor when `frp_ok[i]`, and has confidence
/// `confidences[i]`.
pub open spec fn keep_flags(
    world: bool,
    inside: Seq<bool>,
    frp_ok: Seq<bool>,
    min_confidence: Option<Seq<char>>,
    confidences: Seq<Seq<char>>,
) -> Seq<bool> {
    Seq::new(
        inside.len(),
        |i: int| spec_detection_matches(world, inside[i], frp_ok[i], min_confidence, confidences[i]),
    )
}

/// The detections a run reports: those that match the request, in their input
/// order, then at most the first `limit` of them.
pub open spec fn reported_detections<T>(
    detections: Seq<T>,
    world: bool,
    inside: Seq<bool>,
    frp_ok: Seq<bool>,
    min_confidence: Option<Seq<char>>,
    confidences: Seq<Seq<char>>,
    limit: Option<usize>,
) -> Seq<T> {
    limited(flagged(detections, keep_flags(world, inside, frp_ok, min_confidence, confidences)), limit)
}

/// Selects the detections a run reports.
pub fn select_detections<T>(
    detections: Vec<T>,
    inside: &Vec<bool>,
    frp_ok: &Vec<bool>,
    confidences: &Vec<String>,
    world: bool,
    min_confidence: &Option<String>,
    limit: Option<usize>,
) -> (out: Vec<T>)
    requires
        inside.len() == detections.len(),
        frp_ok.len() == detections.len(),
        confidences.len() == detections.len(),
    ensures
        out@ == reported_detections(
            detections@,
            world,
            inside@,
            frp_ok@,
            opt_view(*min_confidence),
            label_views(confidences@),
            limit,
        ),
{
    let n = detections.len();
    let ghost flags = keep_flags(world, inside@, frp_ok@, opt_view(*min_confidence), label_views(confidences@));
    let mut keep: Vec<bool> = Vec::new();
    let mut i: usize = 0;
    while i < n
        invariant
            i <= n,
            n == inside.len(),
            n == frp_ok.len(),
            n == confidences.len(),
            flags == keep_flags(world, inside@, frp_ok@, opt_view(*min_confidence), label_views(confidences@)),
            keep@ == flags.subrange(0, i as int),
        decreases n - i,
    {
        let b = detection_matches_request(
            world,
            inside[i],
            frp_ok[i],
            min_confidence,
            confidences[i].as_str(),
        );
        keep.push(b);
        assert(keep@ =~= flags.subrange(0, i + 1));
        i = i + 1;
    }
    assert(keep@ =~= flags);
    retain_and_limit(detections, &keep, limit)
}

/// Every item that survives the filter and the limit was flagged, and none
/// but the first `limit` survive; the survivors keep their input order.
pub proof fn lemma_flagged_items_come_from_the_input<T>(items: Seq<T>, keep: Seq<bool>)
    requires
        keep.len() == items.len(),
    ensures
        flagged(items, keep).len() <= items.len(),
        forall|k: int|
            0 <= k < flagged(items, keep).len() ==> exists|j: int|
                0 <= j < items.len() && keep[j] && items[j] == #[trigger] flagged(items, keep)[k],
    decreases items.len(),
{
    if items.len() > 0 {
        let n = items.len() - 1;
        let pre_items = items.subrange(0, n);
        let pre_keep = keep.subrange(0, n);
        lemma_flagged_items_come_from_the_input(pre_items, pre_keep);
        let before = flagged(pre_items, pre_keep);
        assert forall|k: int| 0 <= k < flagged(items, keep).len() implies exists|j: int|
            0 <= j < items.len() && keep[j] && items[j] == #[trigger] flagged(items, keep)[k] by {
            if k < before.len() {
                let j = choose|j: int|
                    0 <= j < pre_items.len() && pre_keep[j] && pre_items[j] == #[trigger] before[k];
                assert(items[j] == pre_items[j]);
            } else {
                assert(flagged(items, keep)[k] == items[n]);
            }
        }
    }
}

/// The number of detections a limit lets through: never more than the limit.
pub proof fn lemma_limit_caps_length<T>(s: Seq<T>, limit: usize)
    ensures
        limited(s, Some(limit)).len() <= limit,
        limited(s, Some(limit)).len() <= s.len(),
        forall|k: int| 0 <= k < limited(s, Some(limit)).len() ==> #[trigger] limited(s, Some(limit))[k] == s[k],
{
}

/// Whether `x` is one of the input detections that match the request.
pub open spec fn is_matching_input<T>(
    detections: Seq<T>,
    world: bool,
    inside: Seq<bool>,
    frp_ok: Seq<bool>,
    min_confidence: Option<Seq<char>>,
    confidences: Seq<Seq<char>>,
    x: T,
) -> bool {
    exists|j: int|
        0 <= j < detections.len() && spec_detection_matches(
            world,
            inside[j],
            frp_ok[j],
            min_confidence,
            confidences[j],
        ) && #[trigger] detections[j] == x
}

/// Every detection a run reports is one of its input detections that matches
/// the request, and a run with a limit reports no more than the limit.
pub proof fn lemma_reported_detections_match_the_request<T>(
    detections: Seq<T>,
    world: bool,
    inside: Seq<bool>,
    frp_ok: Seq<bool>,
    min_confidence: Option<Seq<char>>,
    confidences: Seq<Seq<char>>,
    limit: Option<usize>,
)
    requires
        inside.len() == detections.len(),
        frp_ok.len() == detections.len(),
        confidences.len() == detections.len(),
    ensures
        ({
            let out = reported_detections(
                detections,
                world,
                inside,
                frp_ok,
                min_confidence,
                confidences,
                limit,
            );
            &&& forall|k: int|
                0 <= k < out.len() ==> is_matching_input(
                    detections,
                    world,
                    inside,
                    frp_ok,
                    min_confidence,
                    confidences,
                    #[trigger] out[k],
                )
            &&& limit matches Some(l) ==> out.len() <= l
        }),
{
    let flags = keep_flags(world, inside, frp_ok, min_confidence, confidences);
    let all = flagged(detections, flags);
    let out = reported_detections(detections, world, inside, frp_ok, min_confidence, confidences, limit);
    lemma_flagged_items_come_from_the_input(detections, flags);
    match limit {
        Some(l) => lemma_limit_caps_length(all, l),
        None => {},
    }
    assert forall|k: int| 0 <= k < out.len() implies is_matching_input(
        detections,
        world,
        inside,
        frp_ok,
        min_confidence,
        confidences,
        #[trigger] out[k],
    ) by {
        assert(out[k] == all[k]);
        let j = choose|j: int| 0 <= j < detections.len() && flags[j] && detections[j] == #[trigger] all[k];
        assert(flags[j]);
    }
}

/// Where the FIRMS CSV of a request comes from.
#[derive(Debug)]
pub enum CsvSourcePlan {
    /// The request carries the CSV text itself.
    Text(String),
    /// The request names a CSV file to read.
    Path,
    /// The CSV is fetched from the FIRMS Area API with this map key.
    Fetch(String),
    /// Nothing to read, and no map key to fetch with.
    MissingMapKey,
}

/// The first value that is present.
pub open spec fn first_present(values: Seq<Option<String>>) -> Option<Seq<char>>
    decreases values.len(),
{
    if values.len() == 0 {
        None
    } else if values[0] is Some {
        Some(values[0]->0@)
    } else {
        first_present(values.drop_first())
    }
}

/// `first_present` is the earliest value that is set: it is `None` exactly when
/// no value is set, and otherwise the value at the first index that holds one.
pub proof fn lemma_first_present_is_the_earliest_set(values: Seq<Option<String>>)
    ensures
        first_present(values) is None <==> forall|i: int| 0 <= i < values.len() ==> #[trigger] values[i] is None,
        forall|i: int|
            0 <= i < values.len() && #[trigger] values[i] is Some && (forall|j: int| 0 <= j < i ==> values[j] is None)
                ==> first_present(values) == Some(values[i]->0@),
    decreases values.len(),
{
    if values.len() > 0 {
        let rest = values.drop_first();
        lemma_first_present_is_the_earliest_set(rest);
        assert forall|i: int| 0 <= i < rest.len() implies #[trigger] rest[i] == values[i + 1] by {}
        if values[0] is None {
            assert forall|i: int|
                0 <= i < values.len() && #[trigger] values[i] is Some && (forall|j: int| 0 <= j < i ==> values[j] is None)
                implies first_present(values) == Some(values[i]->0@) by {
                assert(i > 0);
                assert(rest[i - 1] == values[i]);
                assert forall|j: int| 0 <= j < i - 1 implies rest[j] is None by {
                    assert(rest[j] == values[j + 1]);
                }
            }
            if first_present(values) is None {
                assert forall|i: int| 0 <= i < values.len() implies #[trigger] values[i] is None by {
                    if i > 0 {
                        assert(rest[i - 1] == values[i]);
                    }
                }
            }
        } else {
            assert(first_present(values) is Some);
            assert forall|i: int|
                0 <= i < values.len() && #[trigger] values[i] is Some && (forall|j: int| 0 <= j < i ==> values[j] is None)
                implies first_present(values) == Some(values[i]->0@) by {
                if i > 0 {
                    assert(values[0] is None);
                }
            }
        }
    }
}

/// Whether an optional text is present and not blank.
pub open spec fn non_blank(o: Option<String>) -> bool {
    o matches Some(t) && trimmed(t@).len() > 0
}

fn is_non_blank(o: &Option<String>) -> (b: bool)
    ensures
        b == non_blank(*o),
{
    match o {
        Some(t) => trim_str(t.as_str()).len() > 0,
        None => false,
    }
}

/// Chooses the CSV source of a request: CSV text that is not blank, else a CSV
/// path, else a fetch with the request's map key when that is not blank, else
/// with the first of the environment's map keys that is set (`env_map_keys`, in
/// the order they are consulted), else nothing.
pub fn plan_csv_source(
    csv_text: &Option<String>,
    has_csv_path: bool,
    map_key: &Option<String>,
    env_map_keys: &Vec<Option<String>>,
) -> (plan: CsvSourcePlan)
    ensures
        non_blank(*csv_text) ==> (plan matches CsvSourcePlan::Text(t) && t@ == csv_text->0@),
        !non_blank(*csv_text) && has_csv_path ==> plan is Path,
        !non_blank(*csv_text) && !has_csv_path && non_blank(*map_key) ==> (plan matches CsvSourcePlan::Fetch(k)
            && k@ == map_key->0@),
        !non_blank(*csv_text) && !has_csv_path && !non_blank(*map_key) ==> match first_present(
            env_map_keys@,
        ) {
            Some(k) => plan matches CsvSourcePlan::Fetch(key) && key@ == k,
            None => plan is MissingMapKey,
        },
{
    if is_non_blank(csv_text) {
        match csv_text {
            Some(t) => {
                return CsvSourcePlan::Text(t.clone());
            },
            None => {},
        }
    }
    if has_csv_path {
        return CsvSourcePlan::Path;
    }
    if is_non_blank(map_key) {
        match map_key {
            Some(k) => {
                return CsvSourcePlan::Fetch(k.clone());
            },
            None => {},
        }
    }
    let mut i: usize = 0;
    assert(env_map_keys@.subrange(0, env_map_keys.len() as int) =~= env_map_keys@);
    while i < env_map_keys.len()
        invariant
            i <= env_map_keys.len(),
            !non_blank(*csv_text),
            !has_csv_path,
            !non_blank(*map_key),
            first_present(env_map_keys@) == first_present(
                env_map_keys@.subrange(i as int, env_map_keys.len() as int),
            ),
        decreases env_map_keys.len() - i,
    {
        let ghost rest = env_map_keys@.subrange(i as int, env_map_keys.len() as int);
        match &env_map_keys[i] {
            Some(k) => {
                return CsvSourcePlan::Fetch(k.clone());
            },
            None => {},
        }
        assert(rest.drop_first() =~= env_map_keys@.subrange(i + 1, env_map_keys.len() as int));
        i = i + 1;
    }
    CsvSourcePlan::MissingMapKey
}

} // verus!
