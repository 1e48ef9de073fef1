//! The lookup table from flowcell names to instruments.

use crate::derive::instrument::compute::lookup_view;
use crate::derive::instrument::compute::LookupEntry;
use crate::derive::instrument::instruments::line;
use crate::derive::instrument::instruments::push_four;
use crate::derive::instrument::instruments::push_one;
use crate::derive::instrument::instruments::push_three;
use crate::derive::instrument::instruments::push_two;
use vstd::prelude::*;

verus! {

/// The table from flowcell names to instruments, as plain values.
pub open spec fn flowcell_lookup() -> Seq<(Seq<char>, Set<Seq<char>>)> {
    seq![
        line("^C[A-Z0-9]{4}ANXX$", seq!["HiSeq 1500", "HiSeq 2000", "HiSeq 2500"]),
        line("^C[A-Z0-9]{4}ACXX$", seq!["HiSeq 1000", "HiSeq 1500", "HiSeq 2000", "HiSeq 2500"]),
        line("^D[A-Z0-9]{4}ACXX$", seq!["HiSeq 1000", "HiSeq 1500", "HiSeq 2000", "HiSeq 2500"]),
        line("^H[A-Z0-9]{4}ADXX$", seq!["HiSeq 1500", "HiSeq 2000", "HiSeq 2500"]),
        line("^H[A-Z0-9]{4}BCXX$", seq!["HiSeq 1500", "HiSeq 2500"]),
        line("^H[A-Z0-9]{4}BCXY$", seq!["HiSeq 1500", "HiSeq 2500"]),
        line("^H[A-Z0-9]{4}BBXX$", seq!["HiSeq 4000"]),
        line("^H[A-Z0-9]{4}BBXY$", seq!["HiSeq 4000"]),
        line("^H[A-Z0-9]{4}CCXX$", seq!["HiSeq X"]),
        line("^H[A-Z0-9]{4}CCXY$", seq!["HiSeq X"]),
        line("^H[A-Z0-9]{4}ALXX$", seq!["HiSeq X"]),
        line("^H[A-Z0-9]{4}BGX[A-Z,0-9]$", seq!["NextSeq"]),
        line("^H[A-Z0-9]{4}AFXX$", seq!["NextSeq"]),
        line("^H[A-Z0-9]{5}RXX$", seq!["NovaSeq"]),
        line("^H[A-Z0-9]{5}MXX$", seq!["NovaSeq"]),
        line("^H[A-Z0-9]{5}SXX$", seq!["NovaSeq"]),
        line("^A[A-Z0-9]{4}$", seq!["MiSeq"]),
        line("^B[A-Z0-9]{4}$", seq!["MiSeq"]),
        line("^D[A-Z0-9]{4}$", seq!["MiSeq"]),
        line("^G[A-Z0-9]{4}$", seq!["MiSeq"]),
    ]
}

/// The table from flowcell names to instruments.
pub fn build_flowcell_lookup_table() -> (table: Vec<LookupEntry>)
    ensures
        lookup_view(table@) == flowcell_lookup(),
{
    let mut table: Vec<LookupEntry> = Vec::new();
    assert(lookup_view(table@) =~= Seq::empty());
    push_three(&mut table, "^C[A-Z0-9]{4}ANXX$", "HiSeq 1500", "HiSeq 2000", "HiSeq 2500");
    push_four(&mut table, "^C[A-Z0-9]{4}ACXX$", "HiSeq 1000", "HiSeq 1500", "HiSeq 2000", "HiSeq 2500");
    push_four(&mut table, "^D[A-Z0-9]{4}ACXX$", "HiSeq 1000", "HiSeq 1500", "HiSeq 2000", "HiSeq 2500");
    push_three(&mut table, "^H[A-Z0-9]{4}ADXX$", "HiSeq 1500", "HiSeq 2000", "HiSeq 2500");
    push_two(&mut table, "^H[A-Z0-9]{4}BCXX$", "HiSeq 1500", "HiSeq 2500");
    push_two(&mut table, "^H[A-Z0-9]{4}BCXY$", "HiSeq 1500", "HiSeq 2500");
    push_one(&mut table, "^H[A-Z0-9]{4}BBXX$", "HiSeq 4000");
    push_one(&mut table, "^H[A-Z0-9]{4}BBXY$", "HiSeq 4000");
    push_one(&mut table, "^H[A-Z0-9]{4}CCXX$", "HiSeq X");
    push_one(&mut table, "^H[A-Z0-9]{4}CCXY$", "HiSeq X");
    push_one(&mut table, "^H[A-Z0-9]{4}ALXX$", "HiSeq X");
    push_one(&mut table, "^H[A-Z0-9]{4}BGX[A-Z,0-9]$", "NextSeq");
    push_one(&mut table, "^H[A-Z0-9]{4}AFXX$", "NextSeq");
    push_one(&mut table, "^H[A-Z0-9]{5}RXX$", "NovaSeq");
    push_one(&mut table, "^H[A-Z0-9]{5}MXX$", "NovaSeq");
    push_one(&mut table, "^H[A-Z0-9]{5}SXX$", "NovaSeq");
    push_one(&mut table, "^A[A-Z0-9]{4}$", "MiSeq");
    push_one(&mut table, "^B[A-Z0-9]{4}$", "MiSeq");
    push_one(&mut table, "^D[A-Z0-9]{4}$", "MiSeq");
    push_one(&mut table, "^G[A-Z0-9]{4}$", "MiSeq");
    table
}

} // verus!
