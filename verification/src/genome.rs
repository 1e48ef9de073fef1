//! Sequences of a reference genome as a registry lists them, and the check
//! of a file's declared sequences against such a list.

use crate::qc::facet::ReferenceSequence;
use vstd::prelude::*;

verus! {

/// One sequence of a reference genome.
#[derive(Debug)]
pub struct Sequence {
    pub name: String,
    pub length: usize,
    /// The sequence belongs to the primary assembly: it is no decoy and no
    /// unplaced contig.
    pub primary_assembly: bool,
}

/// A declared sequence that the reference genome does not have.
#[derive(Debug)]
pub struct SequenceNotFound {
    /// Where the sequence stands among the declared ones.
    pub index: usize,
    /// Its name.
    pub name: String,
}

/// One of `sequences` is called `name`.
pub open spec fn has_name(sequences: Seq<Sequence>, name: Seq<char>) -> bool {
    exists|i: int| 0 <= i < sequences.len() && #[trigger] sequences[i].name@ == name
}

/// The names of the sequences of `sequences` that belong to the primary
/// assembly, in their order.
pub open spec fn primary_names(sequences: Seq<Sequence>) -> Seq<Seq<char>>
    decreases sequences.len(),
{
    if sequences.len() == 0 {
        Seq::empty()
    } else if sequences.last().primary_assembly {
        primary_names(sequences.drop_last()).push(sequences.last().name@)
    } else {
        primary_names(sequences.drop_last())
    }
}

/// The names of `names` as plain values.
pub open spec fn name_views(names: Seq<String>) -> Seq<Seq<char>> {
    Seq::new(names.len(), |i: int| names[i]@)
}

/// Whether one of `sequences` is called `name`.
pub fn contains_sequence(sequences: &Vec<Sequence>, name: &String) -> (found: bool)
    ensures
        found == has_name(sequences@, name@),
{
    let mut i: usize = 0;
    while i < sequences.len()
        invariant
            i <= sequences.len(),
            forall|j: int| 0 <= j < i ==> sequences@[j].name@ != name@,
        decreases sequences.len() - i,
    {
        if sequences[i].name == *name {
            return true;
        }
        i += 1;
    }
    false
}

/// The names of the sequences that belong to the primary assembly, in the
/// order of the registry.
pub fn get_primary_assembly(sequences: &Vec<Sequence>) -> (names: Vec<String>)
    ensures
        name_views(names@) == primary_names(sequences@),
{
    let mut names: Vec<String> = Vec::new();
    let mut i: usize = 0;
    while i < sequences.len()
        invariant
            i <= sequences.len(),
            name_views(names@) == primary_names(sequences@.take(i as int)),
        decreases sequences.len() - i,
    {
        proof {
            assert(sequences@.take(i + 1).drop_last() =~= sequences@.take(i as int));
        }
        if sequences[i].primary_assembly {
            let ghost before = names@;
            names.push(sequences[i].name.clone());
            assert(name_views(names@) =~= name_views(before).push(sequences@[i as int].name@));
        }
        i += 1;
    }
    proof {
        assert(sequences@.take(sequences.len() as int) =~= sequences@);
    }
    names
}

/// Checks that the reference genome has every sequence that the file
/// declares. The first declared sequence that it lacks is named in the
/// error.
pub fn validate_sequences(declared: &Vec<ReferenceSequence>, supported: &Vec<Sequence>) -> (r:
    Result<(), SequenceNotFound>)
    ensures
        match r {
            Ok(()) => forall|i: int|
                0 <= i < declared.len() ==> has_name(supported@, #[trigger] declared[i].name@),
            Err(missing) => {
                &&& missing.index < declared.len()
                &&& missing.name@ == declared[missing.index as int].name@
                &&& !has_name(supported@, missing.name@)
                &&& forall|i: int|
                    0 <= i < missing.index ==> has_name(supported@, #[trigger] declared[i].name@)
            },
        },
{
    let mut i: usize = 0;
    while i < declared.len()
        invariant
            i <= declared.len(),
            forall|j: int| 0 <= j < i ==> has_name(supported@, #[trigger] declared[j].name@),
        decreases declared.len() - i,
    {
        if !contains_sequence(supported, &declared[i].name) {
            return Err(SequenceNotFound { index: i, name: declared[i].name.clone() });
        }
        i += 1;
    }
    Ok(())
}

} // verus!
