//! The lookup table from instrument names to instruments.

use crate::derive::instrument::compute::lookup_view;
use crate::derive::instrument::compute::LookupEntry;
use crate::derive::instrument::names::names;
use vstd::prelude::*;

verus! {

/// The set of the names of `machines`.
pub open spec fn machine_set(machines: Seq<&'static str>) -> Set<Seq<char>> {
    Set::new(
        |name: Seq<char>| exists|i: int| 0 <= i < machines.len() && #[trigger] machines[i]@ == name,
    )
}

/// A line of a lookup table.
pub open spec fn line(pattern: &'static str, machines: Seq<&'static str>) -> (
    Seq<char>,
    Set<Seq<char>>,
) {
    (pattern@, machine_set(machines))
}

/// The table from instrument names to instruments, as plain values.
pub open spec fn instrument_lookup() -> Seq<(Seq<char>, Set<Seq<char>>)> {
    seq![
        line("^HWI-M[0-9]{4}$", seq!["MiSeq"]),
        line("^HWUSI", seq!["Genome Analyzer IIx"]),
        line("^M[0-9]{5}$", seq!["MiSeq"]),
        line("^HWI-C[0-9]{5}$", seq!["HiSeq 1500"]),
        line("^C[0-9]{5}$", seq!["HiSeq 1500"]),
        line("^HWI-D[0-9]{5}$", seq!["HiSeq 2500"]),
        line("^D[0-9]{5}$", seq!["HiSeq 2500"]),
        line("^J[0-9]{5}$", seq!["HiSeq 3000"]),
        line("^K[0-9]{5}$", seq!["HiSeq 3000", "HiSeq 4000"]),
        line("^E[0-9]{5}$", seq!["HiSeq X"]),
        line("^NB[0-9]{6}$", seq!["NextSeq"]),
        line("^NS[0-9]{6}$", seq!["NextSeq"]),
        line("^MN[0-9]{5}$", seq!["MiniSeq"]),
        line("^A[0-9]{5}$", seq!["NovaSeq"]),
    ]
}

/// Adds to `table` the line with `pattern` and `machines`.
fn push_line(table: &mut Vec<LookupEntry>, pattern: &'static str, machines: Vec<&'static str>)
    ensures
        lookup_view(final(table)@) == lookup_view(old(table)@).push(line(pattern, machines@)),
{
    let mut owned: Vec<String> = Vec::new();
    let mut i: usize = 0;
    assert(names(owned@) =~= machine_set(machines@.take(0)));
    while i < machines.len()
        invariant
            i <= machines.len(),
            owned@.len() == i,
            forall|k: int| 0 <= k < i ==> (#[trigger] owned@[k])@ == machines@[k]@,
        decreases machines.len() - i,
    {
        owned.push(machines[i].to_owned());
        i += 1;
    }
    proof {
        assert forall|name: Seq<char>| names(owned@).contains(name) <==> machine_set(
            machines@,
        ).contains(name) by {
            if names(owned@).contains(name) {
                let k = choose|k: int| 0 <= k < owned@.len() && #[trigger] owned@[k]@ == name;
                assert(machines@[k]@ == name);
            }
            if machine_set(machines@).contains(name) {
                let k = choose|k: int| 0 <= k < machines@.len() && #[trigger] machines@[k]@ == name;
                assert(owned@[k]@ == name);
            }
        }
        assert(names(owned@) =~= machine_set(machines@));
    }
    table.push(LookupEntry { pattern: pattern.to_owned(), machines: owned });
    proof {
        assert(lookup_view(table@) =~= lookup_view(old(table)@).push(line(pattern, machines@)));
    }
}

/// Adds to `table` the line with `pattern` and one instrument.
pub fn push_one(table: &mut Vec<LookupEntry>, pattern: &'static str, a: &'static str)
    ensures
        lookup_view(final(table)@) == lookup_view(old(table)@).push(line(pattern, seq![a])),
{
    let machines = vec![a];
    assert(machines@ =~= seq![a]);
    push_line(table, pattern, machines);
}

/// Adds to `table` the line with `pattern` and two instruments.
pub fn push_two(
    table: &mut Vec<LookupEntry>,
    pattern: &'static str,
    a: &'static str,
    b: &'static str,
)
    ensures
        lookup_view(final(table)@) == lookup_view(old(table)@).push(line(pattern, seq![a, b])),
{
    let machines = vec![a, b];
    assert(machines@ =~= seq![a, b]);
    push_line(table, pattern, machines);
}

/// Adds to `table` the line with `pattern` and three instruments.
pub fn push_three(
    table: &mut Vec<LookupEntry>,
    pattern: &'static str,
    a: &'static str,
    b: &'static str,
    c: &'static str,
)
    ensures
        lookup_view(final(table)@) == lookup_view(old(table)@).push(line(pattern, seq![a, b, c])),
{
    let machines = vec![a, b, c];
    assert(machines@ =~= seq![a, b, c]);
    push_line(table, pattern, machines);
}

/// Adds to `table` the line with `pattern` and four instruments.
pub fn push_four(
    table: &mut Vec<LookupEntry>,
    pattern: &'static str,
    a: &'static str,
    b: &'static str,
    c: &'static str,
    d: &'static str,
)
    ensures
        lookup_view(final(table)@) == lookup_view(old(table)@).push(
            line(pattern, seq![a, b, c, d]),
        ),
{
    let machines = vec![a, b, c, d];
    assert(machines@ =~= seq![a, b, c, d]);
    push_line(table, pattern, machines);
}

/// The table from instrument names to instruments.
pub fn build_instrument_lookup_table() -> (table: Vec<LookupEntry>)
    ensures
        lookup_view(table@) == instrument_lookup(),
{
    let mut table: Vec<LookupEntry> = Vec::new();
    assert(lookup_view(table@) =~= Seq::empty());
    push_one(&mut table, "^HWI-M[0-9]{4}$", "MiSeq");
    push_one(&mut table, "^HWUSI", "Genome Analyzer IIx");
    push_one(&mut table, "^M[0-9]{5}$", "MiSeq");
    push_one(&mut table, "^HWI-C[0-9]{5}$", "HiSeq 1500");
    push_one(&mut table, "^C[0-9]{5}$", "HiSeq 1500");
    push_one(&mut table, "^HWI-D[0-9]{5}$", "HiSeq 2500");
    push_one(&mut table, "^D[0-9]{5}$", "HiSeq 2500");
    push_one(&mut table, "^J[0-9]{5}$", "HiSeq 3000");
    push_two(&mut table, "^K[0-9]{5}$", "HiSeq 3000", "HiSeq 4000");
    push_one(&mut table, "^E[0-9]{5}$", "HiSeq X");
    push_one(&mut table, "^NB[0-9]{6}$", "NextSeq");
    push_one(&mut table, "^NS[0-9]{6}$", "NextSeq");
    push_one(&mut table, "^MN[0-9]{5}$", "MiniSeq");
    push_one(&mut table, "^A[0-9]{5}$", "NovaSeq");
    table
}

} // verus!
