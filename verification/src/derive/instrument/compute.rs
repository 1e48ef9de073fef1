//! Combines the evidence of instrument names and flowcell names into one
//! prediction.

use crate::derive::instrument::flowcells::build_flowcell_lookup_table;
use crate::derive::instrument::flowcells::flowcell_lookup;
use crate::derive::instrument::instruments::build_instrument_lookup_table;
use crate::derive::instrument::instruments::instrument_lookup;
use crate::derive::instrument::names::common_names;
use crate::derive::instrument::names::distinct_copy;
use crate::derive::instrument::names::distinct_names;
use crate::derive::instrument::names::insert_name;
use crate::derive::instrument::names::lemma_names_empty;
use crate::derive::instrument::names::names;
use vstd::prelude::*;

verus! {

/// Whether `regex::Regex::new` accepts `pattern`.
pub uninterp spec fn regex_compiles(pattern: Seq<char>) -> bool;

/// Whether `regex::Regex::is_match` finds a match of the regular expression
/// compiled from `pattern` anywhere in `text`.
pub uninterp spec fn regex_is_match(pattern: Seq<char>, text: Seq<char>) -> bool;

/// `pattern` is a regular expression that matches somewhere in `text`. A
/// pattern that is no regular expression matches nothing.
pub open spec fn pattern_matches(pattern: Seq<char>, text: Seq<char>) -> bool {
    regex_compiles(pattern) && regex_is_match(pattern, text)
}

/// `regex::Regex::new` on `pattern`, then `regex::Regex::is_match` on
/// `text`: `None` when the pattern is refused, else whether the compiled
/// expression matches somewhere in the text. Both depend on nothing but
/// their arguments.
#[verifier::external_body]
fn regex_match(pattern: &str, text: &str) -> (r: Option<bool>)
    ensures
        r == (if regex_compiles(pattern@) {
            Some(regex_is_match(pattern@, text@))
        } else {
            None
        }),
{
    match regex::Regex::new(pattern) {
        Ok(expression) => Some(expression.is_match(text)),
        Err(_) => None,
    }
}

/// One line of a lookup table: the instruments that may have written a name
/// that `pattern` matches.
#[derive(Debug)]
pub struct LookupEntry {
    pub pattern: String,
    pub machines: Vec<String>,
}

/// What instrument names or flowcell names tell about the instrument.
#[derive(Debug)]
pub struct InstrumentDetectionResults {
    /// The instruments that may have written every name seen so far, or
    /// `None` while no name was seen.
    pub possible_instruments: Option<Vec<String>>,
    /// Some name seen so far is one that an instrument may have written.
    pub detected_at_least_one_machine: bool,
}

/// The prediction.
#[derive(Debug)]
pub struct DerivedInstrumentResult {
    /// Whether an instrument could be predicted.
    pub succeeded: bool,
    /// The instruments predicted, if any.
    pub instruments: Option<Vec<String>>,
    /// How much the prediction can be relied on.
    pub confidence: String,
    /// The evidence that the prediction rests on, or lacks.
    pub evidence: Option<String>,
    /// A remark, if there is one.
    pub comment: Option<String>,
}

/// A detection result as plain values.
pub struct DetectionView {
    pub possible_instruments: Option<Set<Seq<char>>>,
    pub detected_at_least_one_machine: bool,
}

/// A prediction as plain values.
pub struct DerivedInstrumentView {
    pub succeeded: bool,
    pub instruments: Option<Set<Seq<char>>>,
    pub confidence: Seq<char>,
    pub evidence: Option<Seq<char>>,
    pub comment: Option<Seq<char>>,
}

/// The characters of a string that may be absent.
pub open spec fn text_of(text: Option<String>) -> Option<Seq<char>> {
    match text {
        Some(text) => Some(text@),
        None => None,
    }
}

/// The set of names of a list that may be absent.
pub open spec fn names_of(list: Option<Vec<String>>) -> Option<Set<Seq<char>>> {
    match list {
        Some(list) => Some(names(list@)),
        None => None,
    }
}

impl View for InstrumentDetectionResults {
    type V = DetectionView;

    open spec fn view(&self) -> DetectionView {
        DetectionView {
            possible_instruments: names_of(self.possible_instruments),
            detected_at_least_one_machine: self.detected_at_least_one_machine,
        }
    }
}

impl View for DerivedInstrumentResult {
    type V = DerivedInstrumentView;

    open spec fn view(&self) -> DerivedInstrumentView {
        DerivedInstrumentView {
            succeeded: self.succeeded,
            instruments: names_of(self.instruments),
            confidence: self.confidence@,
            evidence: text_of(self.evidence),
            comment: text_of(self.comment),
        }
    }
}

/// The detection result once a name was seen that `instruments` may have
/// written: of the instruments possible so far, those that are among
/// `instruments` stay possible.
pub open spec fn updated(before: DetectionView, instruments: Set<Seq<char>>) -> DetectionView {
    DetectionView {
        possible_instruments: Some(
            match before.possible_instruments {
                Some(possible) => possible.intersect(instruments),
                None => instruments,
            },
        ),
        detected_at_least_one_machine: before.detected_at_least_one_machine || instruments
            != Set::<Seq<char>>::empty(),
    }
}

impl Default for InstrumentDetectionResults {
    /// No name was seen yet.
    fn default() -> (results: Self)
        ensures
            results@ == (DetectionView {
                possible_instruments: None,
                detected_at_least_one_machine: false,
            }),
            results.possible_instruments.is_none(),
    {
        InstrumentDetectionResults::new()
    }
}

impl InstrumentDetectionResults {
    /// No name was seen yet.
    pub fn new() -> (results: Self)
        ensures
            results@ == (DetectionView {
                possible_instruments: None,
                detected_at_least_one_machine: false,
            }),
            results.possible_instruments.is_none(),
    {
        InstrumentDetectionResults {
            possible_instruments: None,
            detected_at_least_one_machine: false,
        }
    }

    /// Takes in the instruments that may have written one more name.
    pub fn update_instruments(&mut self, instruments: &Vec<String>)
        ensures
            final(self)@ == updated(old(self)@, names(instruments@)),
            final(self).possible_instruments matches Some(possible) && distinct_names(possible@),
    {
        let possible = match &self.possible_instruments {
            Some(possible) => common_names(possible, instruments),
            None => distinct_copy(instruments),
        };
        proof {
            lemma_names_empty(instruments@);
        }
        self.possible_instruments = Some(possible);
        if instruments.len() > 0 {
            self.detected_at_least_one_machine = true;
        }
    }
}

impl DerivedInstrumentResult {
    /// A prediction with the given parts.
    pub fn new(
        succeeded: bool,
        instruments: Option<Vec<String>>,
        confidence: String,
        evidence: Option<String>,
        comment: Option<String>,
    ) -> (result: Self)
        ensures
            result.succeeded == succeeded,
            result.instruments == instruments,
            result.confidence == confidence,
            result.evidence == evidence,
            result.comment == comment,
    {
        DerivedInstrumentResult { succeeded, instruments, confidence, evidence, comment }
    }
}

/// A lookup table as plain values: for each line its pattern and the names
/// of its instruments.
pub open spec fn lookup_view(table: Seq<LookupEntry>) -> Seq<(Seq<char>, Set<Seq<char>>)> {
    Seq::new(table.len(), |line: int| (table[line].pattern@, names(table[line].machines@)))
}

/// The instruments of the lines of `table` for which `chosen` holds.
pub open spec fn machines_where(
    table: Seq<(Seq<char>, Set<Seq<char>>)>,
    chosen: spec_fn(int) -> bool,
) -> Set<Seq<char>> {
    Set::new(
        |machine: Seq<char>|
            exists|line: int|
                0 <= line < table.len() && chosen(line) && (#[trigger] table[line]).1.contains(
                    machine,
                ),
    )
}

/// The instruments that may have written `query`: those of every line of
/// `table` whose pattern matches it.
pub open spec fn possible_for(
    table: Seq<(Seq<char>, Set<Seq<char>>)>,
    query: Seq<char>,
) -> Set<Seq<char>> {
    machines_where(table, |line: int| pattern_matches(table[line].0, query))
}

/// The instruments of the lines of `table` that `matched` marks, each once.
/// A line beyond the end of `matched` counts as not marked.
pub fn collect_machines(table: &Vec<LookupEntry>, matched: &Vec<bool>) -> (machines: Vec<String>)
    ensures
        distinct_names(machines@),
        names(machines@) == machines_where(
            lookup_view(table@),
            |line: int| 0 <= line < matched@.len() && matched@[line],
        ),
{
    let ghost chosen = |line: int| 0 <= line < matched@.len() && matched@[line];
    let mut machines: Vec<String> = Vec::new();
    let mut line: usize = 0;
    assert(names(machines@) =~= machines_where(lookup_view(table@).take(0), chosen));
    while line < table.len()
        invariant
            line <= table.len(),
            distinct_names(machines@),
            chosen == |line: int| 0 <= line < matched@.len() && matched@[line],
            names(machines@) == machines_where(lookup_view(table@).take(line as int), chosen),
        decreases table.len() - line,
    {
        let ghost before = names(machines@);
        if line < matched.len() && matched[line] {
            let entry = &table[line];
            let mut i: usize = 0;
            assert(names(entry.machines@.take(0)) =~= Set::<Seq<char>>::empty());
            while i < entry.machines.len()
                invariant
                    i <= entry.machines.len(),
                    distinct_names(machines@),
                    names(machines@) == before.union(names(entry.machines@.take(i as int))),
                decreases entry.machines.len() - i,
            {
                insert_name(&mut machines, &entry.machines[i]);
                proof {
                    crate::derive::instrument::names::lemma_names_take(entry.machines@, i as int);
                    assert(names(machines@) =~= before.union(
                        names(entry.machines@.take(i + 1)),
                    ));
                }
                i += 1;
            }
            assert(entry.machines@.take(entry.machines.len() as int) =~= entry.machines@);
        }
        proof {
            lemma_machines_where_take(lookup_view(table@), chosen, line as int);
            assert(names(machines@) =~= machines_where(
                lookup_view(table@).take(line + 1),
                chosen,
            ));
        }
        line += 1;
    }
    assert(lookup_view(table@).take(table.len() as int) =~= lookup_view(table@));
    machines
}

/// One more line in the table adds its instruments if the line is chosen.
pub proof fn lemma_machines_where_take(
    table: Seq<(Seq<char>, Set<Seq<char>>)>,
    chosen: spec_fn(int) -> bool,
    line: int,
)
    requires
        0 <= line < table.len(),
    ensures
        machines_where(table.take(line + 1), chosen) == machines_where(
            table.take(line),
            chosen,
        ).union(
            if chosen(line) {
                table[line].1
            } else {
                Set::<Seq<char>>::empty()
            },
        ),
{
    let shorter = table.take(line);
    let longer = table.take(line + 1);
    let added = if chosen(line) {
        table[line].1
    } else {
        Set::<Seq<char>>::empty()
    };
    assert forall|machine: Seq<char>| machines_where(longer, chosen).contains(machine)
        <==> machines_where(shorter, chosen).union(added).contains(machine) by {
        if machines_where(longer, chosen).contains(machine) {
            let k = choose|k: int|
                0 <= k < longer.len() && chosen(k) && (#[trigger] longer[k]).1.contains(machine);
            if k < line {
                assert(shorter[k].1.contains(machine));
            }
        }
        if machines_where(shorter, chosen).contains(machine) {
            let k = choose|k: int|
                0 <= k < shorter.len() && chosen(k) && (#[trigger] shorter[k]).1.contains(machine);
            assert(longer[k].1.contains(machine));
        }
        if added.contains(machine) {
            assert(longer[line].1.contains(machine));
        }
    }
    assert(machines_where(longer, chosen) =~= machines_where(shorter, chosen).union(added));
}

/// The instruments that may have written `query` according to
/// `lookup_table`, each once.
pub fn possible_instruments_for_query(query: String, lookup_table: &Vec<LookupEntry>) -> (result:
    Vec<String>)
    ensures
        distinct_names(result@),
        names(result@) == possible_for(lookup_view(lookup_table@), query@),
{
    let mut matched: Vec<bool> = Vec::new();
    let mut line: usize = 0;
    while line < lookup_table.len()
        invariant
            line <= lookup_table.len(),
            matched@.len() == line,
            forall|k: int|
                0 <= k < line ==> #[trigger] matched@[k] == pattern_matches(
                    lookup_table@[k].pattern@,
                    query@,
                ),
        decreases lookup_table.len() - line,
    {
        let hit = match regex_match(lookup_table[line].pattern.as_str(), query.as_str()) {
            Some(hit) => hit,
            None => false,
        };
        matched.push(hit);
        line += 1;
    }
    let result = collect_machines(lookup_table, &matched);
    proof {
        let table = lookup_view(lookup_table@);
        assert forall|machine: Seq<char>| names(result@).contains(machine) <==> possible_for(
            table,
            query@,
        ).contains(machine) by {
            if names(result@).contains(machine) {
                let k = choose|k: int|
                    0 <= k < table.len() && (0 <= k < matched@.len() && matched@[k])
                        && (#[trigger] table[k]).1.contains(machine);
                assert(pattern_matches(table[k].0, query@));
            }
            if possible_for(table, query@).contains(machine) {
                let k = choose|k: int|
                    0 <= k < table.len() && pattern_matches(table[k].0, query@)
                        && (#[trigger] table[k]).1.contains(machine);
                assert(matched@[k]);
            }
        }
        assert(names(result@) =~= possible_for(table, query@));
    }
    result
}

/// What the names `queries` tell according to `table`: the instruments that
/// may have written every one of them, and whether any of them is a name
/// that an instrument may have written. Without names nothing is known.
pub open spec fn detected(
    table: Seq<(Seq<char>, Set<Seq<char>>)>,
    queries: Seq<String>,
) -> DetectionView
    decreases queries.len(),
{
    if queries.len() == 0 {
        DetectionView { possible_instruments: None, detected_at_least_one_machine: false }
    } else {
        updated(detected(table, queries.drop_last()), possible_for(table, queries.last()@))
    }
}

/// What the names `queries` tell about the instrument, according to
/// `lookup_table`.
pub fn predict_instrument(queries: Vec<String>, lookup_table: &Vec<LookupEntry>) -> (result:
    InstrumentDetectionResults)
    ensures
        result@ == detected(lookup_view(lookup_table@), queries@),
        result.possible_instruments matches Some(possible) ==> distinct_names(possible@),
{
    let mut result = InstrumentDetectionResults::new();
    let mut i: usize = 0;
    assert(queries@.take(0) =~= Seq::<String>::empty());
    while i < queries.len()
        invariant
            i <= queries.len(),
            result@ == detected(lookup_view(lookup_table@), queries@.take(i as int)),
            result.possible_instruments matches Some(possible) ==> distinct_names(possible@),
        decreases queries.len() - i,
    {
        let derived = possible_instruments_for_query(queries[i].clone(), lookup_table);
        result.update_instruments(&derived);
        proof {
            assert(queries@.take(i + 1).drop_last() =~= queries@.take(i as int));
        }
        i += 1;
    }
    assert(queries@.take(queries.len() as int) =~= queries@);
    result
}

/// The names of the instruments that are possible, none when nothing is
/// known.
pub open spec fn possible(detection: DetectionView) -> Set<Seq<char>> {
    match detection.possible_instruments {
        Some(possible) => possible,
        None => Set::empty(),
    }
}

/// `set` holds exactly one name.
pub open spec fn is_single(set: Set<Seq<char>>) -> bool {
    exists|name: Seq<char>| set == Set::<Seq<char>>::empty().insert(name)
}

/// A prediction that failed.
pub open spec fn failed(
    confidence: Seq<char>,
    evidence: Option<Seq<char>>,
    comment: Seq<char>,
) -> DerivedInstrumentView {
    DerivedInstrumentView {
        succeeded: false,
        instruments: None,
        confidence,
        evidence,
        comment: Some(comment),
    }
}

/// A prediction of `instruments`.
pub open spec fn predicted(
    instruments: Set<Seq<char>>,
    confidence: Seq<char>,
    evidence: Seq<char>,
) -> DerivedInstrumentView {
    DerivedInstrumentView {
        succeeded: true,
        instruments: Some(instruments),
        confidence,
        evidence: Some(evidence),
        comment: None,
    }
}

/// The confidence in a prediction that rests on one kind of name alone.
pub open spec fn lone_confidence(instruments: Set<Seq<char>>) -> Seq<char> {
    if is_single(instruments) {
        "medium"@
    } else {
        "low"@
    }
}

/// The prediction from what the instrument names and the flowcell names
/// tell.
///
/// Names of one kind that were recognised but leave no instrument possible
/// contradict each other, and the prediction fails; instrument names are
/// looked at first. With nothing recognised at all it fails too. With one
/// kind of name only, its instruments are predicted, with medium confidence
/// for a single one and low confidence for several. With both kinds, the
/// instruments that both allow are predicted with high confidence, and with
/// none of those the prediction fails.
pub open spec fn resolved(by_instrument: DetectionView, by_flowcell: DetectionView)
    -> DerivedInstrumentView {
    let instruments = possible(by_instrument);
    let flowcells = possible(by_flowcell);
    let nothing = Set::<Seq<char>>::empty();
    if instruments == nothing && by_instrument.detected_at_least_one_machine {
        failed(
            "unknown"@,
            Some("instrument id"@),
            "multiple instruments were detected in this file via the instrument id"@,
        )
    } else if flowcells == nothing && by_flowcell.detected_at_least_one_machine {
        failed(
            "unknown"@,
            Some("flowcell id"@),
            "multiple instruments were detected in this file via the flowcell id"@,
        )
    } else if instruments == nothing && flowcells == nothing {
        failed("unknown"@, None, "no matching instruments were found"@)
    } else if instruments == nothing {
        predicted(flowcells, lone_confidence(flowcells), "flowcell id"@)
    } else if flowcells == nothing {
        predicted(instruments, lone_confidence(instruments), "instrument id"@)
    } else if flowcells.intersect(instruments) == nothing {
        failed(
            "high"@,
            Some("instrument and flowcell id"@),
            "Case needs triaging, results from instrument id and flowcell id are mutually exclusive."@,
        )
    } else {
        predicted(flowcells.intersect(instruments), "high"@, "instrument and flowcell id"@)
    }
}

/// A list of distinct names holds exactly one name when its length is one.
pub proof fn lemma_single_name(list: Seq<String>)
    requires
        distinct_names(list),
    ensures
        is_single(names(list)) <==> list.len() == 1,
{
    let nothing = Set::<Seq<char>>::empty();
    if list.len() == 1 {
        assert(names(list) =~= nothing.insert(list[0]@));
    } else if list.len() == 0 {
        lemma_names_empty(list);
        if is_single(names(list)) {
            let name = choose|name: Seq<char>| names(list) == nothing.insert(name);
            assert(nothing.insert(name).contains(name));
        }
    } else {
        if is_single(names(list)) {
            let name = choose|name: Seq<char>| names(list) == nothing.insert(name);
            assert(list[0]@ == list[0]@ && list[1]@ == list[1]@);
            assert(names(list).contains(list[0]@));
            assert(names(list).contains(list[1]@));
            assert(list[0]@ != list[1]@);
        }
    }
}

/// The names of a list that may be absent, each once.
fn distinct_or_none(list: Option<Vec<String>>) -> (copy: Vec<String>)
    ensures
        distinct_names(copy@),
        names(copy@) == (match list {
            Some(list) => names(list@),
            None => Set::<Seq<char>>::empty(),
        }),
{
    match list {
        Some(list) => distinct_copy(&list),
        None => {
            let copy: Vec<String> = Vec::new();
            proof {
                lemma_names_empty(copy@);
            }
            copy
        },
    }
}

/// Combines what the instrument names and the flowcell names tell into one
/// prediction. The instruments predicted are listed each once.
pub fn resolve_instrument_prediction(
    iid_results: InstrumentDetectionResults,
    fcid_results: InstrumentDetectionResults,
) -> (result: DerivedInstrumentResult)
    ensures
        result@ == resolved(iid_results@, fcid_results@),
        result.instruments matches Some(instruments) ==> distinct_names(instruments@),
{
    let iid_detected = iid_results.detected_at_least_one_machine;
    let fcid_detected = fcid_results.detected_at_least_one_machine;
    let possible_instruments_by_iid = distinct_or_none(iid_results.possible_instruments);
    let possible_instruments_by_fcid = distinct_or_none(fcid_results.possible_instruments);
    proof {
        lemma_names_empty(possible_instruments_by_iid@);
        lemma_names_empty(possible_instruments_by_fcid@);
        lemma_single_name(possible_instruments_by_iid@);
        lemma_single_name(possible_instruments_by_fcid@);
    }

    if possible_instruments_by_iid.len() == 0 && iid_detected {
        return DerivedInstrumentResult::new(
            false,
            None,
            "unknown".to_owned(),
            Some("instrument id".to_owned()),
            Some(
                "multiple instruments were detected in this file via the instrument id".to_owned(),
            ),
        );
    }
    if possible_instruments_by_fcid.len() == 0 && fcid_detected {
        return DerivedInstrumentResult::new(
            false,
            None,
            "unknown".to_owned(),
            Some("flowcell id".to_owned()),
            Some("multiple instruments were detected in this file via the flowcell id".to_owned()),
        );
    }
    if possible_instruments_by_iid.len() == 0 && possible_instruments_by_fcid.len() == 0 {
        return DerivedInstrumentResult::new(
            false,
            None,
            "unknown".to_owned(),
            None,
            Some("no matching instruments were found".to_owned()),
        );
    }
    if possible_instruments_by_iid.len() == 0 {
        let confidence = if possible_instruments_by_fcid.len() == 1 {
            "medium"
        } else {
            "low"
        };
        return DerivedInstrumentResult::new(
            true,
            Some(possible_instruments_by_fcid),
            confidence.to_owned(),
            Some("flowcell id".to_owned()),
            None,
        );
    }
    if possible_instruments_by_fcid.len() == 0 {
        let confidence = if possible_instruments_by_iid.len() == 1 {
            "medium"
        } else {
            "low"
        };
        return DerivedInstrumentResult::new(
            true,
            Some(possible_instruments_by_iid),
            confidence.to_owned(),
            Some("instrument id".to_owned()),
            None,
        );
    }
    let overlapping_instruments = common_names(
        &possible_instruments_by_fcid,
        &possible_instruments_by_iid,
    );
    proof {
        lemma_names_empty(overlapping_instruments@);
    }
    if overlapping_instruments.len() == 0 {
        return DerivedInstrumentResult::new(
            false,
            None,
            "high".to_owned(),
            Some("instrument and flowcell id".to_owned()),
            Some(
                "Case needs triaging, results from instrument id and flowcell id are mutually exclusive.".to_owned(),
            ),
        );
    }
    DerivedInstrumentResult::new(
        true,
        Some(overlapping_instruments),
        "high".to_owned(),
        Some("instrument and flowcell id".to_owned()),
        None,
    )
}

/// Predicts the instrument from the instrument names and the flowcell
/// names found in a file, by the lookup tables of this library.
pub fn predict(instrument_names: Vec<String>, flowcell_names: Vec<String>) -> (result:
    DerivedInstrumentResult)
    ensures
        result@ == resolved(
            detected(instrument_lookup(), instrument_names@),
            detected(flowcell_lookup(), flowcell_names@),
        ),
        result.instruments matches Some(instruments) ==> distinct_names(instruments@),
{
    let instruments = build_instrument_lookup_table();
    let flowcells = build_flowcell_lookup_table();

    let iid_results = predict_instrument(instrument_names, &instruments);
    let fcid_results = predict_instrument(flowcell_names, &flowcells);

    resolve_instrument_prediction(iid_results, fcid_results)
}

} // verus!
