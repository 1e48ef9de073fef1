//! Illumina read names. A read name is a list of segments with colons
//! between them, in one of two shapes:
//!
//! `INSTRUMENT:LANE:TILE:X:Y` and `INSTRUMENT:RUN:FLOWCELL:LANE:TILE:X:Y`.

use crate::genome::name_views;
use std::str::FromStr;
use vstd::prelude::*;
use vstd::string::StrSliceExecFns;

verus! {

/// The parts of an Illumina read name.
#[derive(Debug)]
pub struct IlluminaReadName {
    pub instrument_name: String,
    pub run: Option<String>,
    pub flowcell: Option<String>,
    pub lane: String,
    pub tile: String,
    pub x: String,
    pub y: String,
}

/// The parts of an Illumina read name as plain values.
pub struct ReadNameView {
    pub instrument_name: Seq<char>,
    pub run: Option<Seq<char>>,
    pub flowcell: Option<Seq<char>>,
    pub lane: Seq<char>,
    pub tile: Seq<char>,
    pub x: Seq<char>,
    pub y: Seq<char>,
}

impl View for IlluminaReadName {
    type V = ReadNameView;

    open spec fn view(&self) -> ReadNameView {
        ReadNameView {
            instrument_name: self.instrument_name@,
            run: match self.run {
                Some(run) => Some(run@),
                None => None,
            },
            flowcell: match self.flowcell {
                Some(flowcell) => Some(flowcell@),
                None => None,
            },
            lane: self.lane@,
            tile: self.tile@,
            x: self.x@,
            y: self.y@,
        }
    }
}

/// The segments of `text` between the occurrences of `separator`. There is
/// one segment more than there are separators, so the empty text has one
/// empty segment.
pub open spec fn split(text: Seq<char>, separator: char) -> Seq<Seq<char>>
    decreases text.len(),
{
    if text.len() == 0 {
        seq![Seq::empty()]
    } else {
        let before = split(text.drop_last(), separator);
        if text.last() == separator {
            before.push(Seq::empty())
        } else {
            before.drop_last().push(before.last().push(text.last()))
        }
    }
}

/// The read name that `text` spells: its segments between colons, when
/// there are five or seven of them.
pub open spec fn parsed(text: Seq<char>) -> Option<ReadNameView> {
    let segments = split(text, ':');
    if segments.len() == 5 {
        Some(
            ReadNameView {
                instrument_name: segments[0],
                run: None,
                flowcell: None,
                lane: segments[1],
                tile: segments[2],
                x: segments[3],
                y: segments[4],
            },
        )
    } else if segments.len() == 7 {
        Some(
            ReadNameView {
                instrument_name: segments[0],
                run: Some(segments[1]),
                flowcell: Some(segments[2]),
                lane: segments[3],
                tile: segments[4],
                x: segments[5],
                y: segments[6],
            },
        )
    } else {
        None
    }
}

/// The segments of `text` between the occurrences of `separator`.
pub fn split_segments(text: &str, separator: char) -> (segments: Vec<String>)
    ensures
        name_views(segments@) == split(text@, separator),
{
    let length = text.unicode_len();
    let mut segments: Vec<String> = Vec::new();
    let mut start: usize = 0;
    let mut i: usize = 0;
    proof {
        assert(text@.take(0) =~= Seq::<char>::empty());
        assert(name_views(segments@).push(text@.subrange(0, 0)) =~= seq![Seq::<char>::empty()]);
    }
    while i < length
        invariant
            start <= i <= length,
            length == text@.len(),
            name_views(segments@).push(text@.subrange(start as int, i as int)) == split(
                text@.take(i as int),
                separator,
            ),
        decreases length - i,
    {
        let ghost before = split(text@.take(i as int), separator);
        let ghost views = name_views(segments@);
        proof {
            assert(text@.take(i + 1).drop_last() =~= text@.take(i as int));
            assert(before.drop_last() =~= views);
        }
        if text.get_char(i) == separator {
            segments.push(text.substring_char(start, i).to_owned());
            start = i + 1;
            proof {
                assert(name_views(segments@) =~= before);
                assert(text@.subrange(start as int, i + 1) =~= Seq::<char>::empty());
            }
        } else {
            proof {
                assert(text@.subrange(start as int, i + 1) =~= before.last().push(
                    text@[i as int],
                ));
            }
        }
        i += 1;
    }
    proof {
        assert(text@.take(length as int) =~= text@);
    }
    let ghost views = name_views(segments@);
    segments.push(text.substring_char(start, length).to_owned());
    proof {
        assert(name_views(segments@) =~= views.push(text@.subrange(start as int, length as int)));
    }
    segments
}

impl IlluminaReadName {
    /// Reads a read name from `s`: its segments between colons, when there
    /// are five or seven of them, and an error for any other number.
    pub fn parse(s: &str) -> (r: Result<IlluminaReadName, ()>)
        ensures
            match r {
                Ok(name) => parsed(s@) == Some(name@),
                Err(()) => parsed(s@).is_none(),
            },
    {
        let segments = split_segments(s, ':');
        let ghost views = name_views(segments@);
        if segments.len() == 5 {
            Ok(
                IlluminaReadName {
                    instrument_name: segments[0].clone(),
                    run: None,
                    flowcell: None,
                    lane: segments[1].clone(),
                    tile: segments[2].clone(),
                    x: segments[3].clone(),
                    y: segments[4].clone(),
                },
            )
        } else if segments.len() == 7 {
            Ok(
                IlluminaReadName {
                    instrument_name: segments[0].clone(),
                    run: Some(segments[1].clone()),
                    flowcell: Some(segments[2].clone()),
                    lane: segments[3].clone(),
                    tile: segments[4].clone(),
                    x: segments[5].clone(),
                    y: segments[6].clone(),
                },
            )
        } else {
            Err(())
        }
    }
}

impl FromStr for IlluminaReadName {
    type Err = ();

    /// Reads a read name from `s` as `parse` does.
    fn from_str(s: &str) -> (r: Result<Self, Self::Err>)
        ensures
            match r {
                Ok(name) => parsed(s@) == Some(name@),
                Err(()) => parsed(s@).is_none(),
            },
    {
        IlluminaReadName::parse(s)
    }
}

} // verus!
