//! The five GFA record kinds and the tagged union over them: typed
//! aggregates of mandatory positional fields, optional attributes, and a
//! trailing optional-field list.

use vstd::prelude::*;

use crate::error::GfaError;
use crate::optfield::OptionalField;
use crate::orientation::Orientation;

verus! {

/// The `H` record: an optional declared format version.
#[derive(Debug, Clone, PartialEq, PartialOrd)]
pub struct Header {
    pub version: Option<String>,
}

/// The `S` record: a named sequence. The name's uniqueness within a graph
/// and the sequence's alphabet are not enforced by this model.
#[derive(Debug, Clone, PartialEq, PartialOrd)]
pub struct Segment {
    pub name: String,
    pub sequence: String,
    pub segment_length: Option<i64>,
    pub read_count: Option<i64>,
    pub fragment_count: Option<i64>,
    pub kmer_count: Option<i64>,
    pub sha256: Option<Vec<u32>>,
    pub uri: Option<String>,
    pub optional_fields: Vec<OptionalField>,
}

impl Segment {
    /// A segment with the given name and sequence; every optional attribute
    /// starts absent. The sequence may be empty but never absent.
    pub fn new(name: &str, sequence: &str) -> (s: Segment)
        ensures
            s.name@ == name@,
            s.sequence@ == sequence@,
            s.segment_length is None,
            s.read_count is None,
            s.fragment_count is None,
            s.kmer_count is None,
            s.sha256 is None,
            s.uri is None,
            s.optional_fields@.len() == 0,
    {
        Segment {
            name: name.to_owned(),
            sequence: sequence.to_owned(),
            segment_length: None,
            read_count: None,
            fragment_count: None,
            kmer_count: None,
            sha256: None,
            uri: None,
            optional_fields: Vec::new(),
        }
    }
}

impl Default for Segment {
    fn default() -> (s: Segment)
        ensures
            s.name@.len() == 0,
            s.sequence@.len() == 0,
            s.segment_length is None,
            s.read_count is None,
            s.fragment_count is None,
            s.kmer_count is None,
            s.sha256 is None,
            s.uri is None,
            s.optional_fields@.len() == 0,
    {
        proof {
            reveal_strlit("");
        }
        Segment::new("", "")
    }
}

/// The `L` record: an overlap edge between two oriented segment ends.
#[derive(Debug, Clone, PartialEq, PartialOrd)]
pub struct Link {
    pub from_segment: String,
    pub from_orient: Orientation,
    pub to_segment: String,
    pub to_orient: Orientation,
    pub overlap: String,
    pub map_quality: Option<i64>,
    pub num_mismatches: Option<i64>,
    pub read_count: Option<i64>,
    pub fragment_count: Option<i64>,
    pub kmer_count: Option<i64>,
    pub edge_id: Option<String>,
    pub optional_fields: Vec<OptionalField>,
}

impl Link {
    /// A link with the given endpoints and overlap descriptor; every
    /// optional attribute starts absent.
    pub fn new(
        from_segment: &str,
        from_orient: Orientation,
        to_segment: &str,
        to_orient: Orientation,
        overlap: &str,
    ) -> (l: Link)
        ensures
            l.from_segment@ == from_segment@,
            l.from_orient == from_orient,
            l.to_segment@ == to_segment@,
            l.to_orient == to_orient,
            l.overlap@ == overlap@,
            l.map_quality is None,
            l.num_mismatches is None,
            l.read_count is None,
            l.fragment_count is None,
            l.kmer_count is None,
            l.edge_id is None,
            l.optional_fields@.len() == 0,
    {
        Link {
            from_segment: from_segment.to_owned(),
            from_orient,
            to_segment: to_segment.to_owned(),
            to_orient,
            overlap: overlap.to_owned(),
            map_quality: None,
            num_mismatches: None,
            read_count: None,
            fragment_count: None,
            kmer_count: None,
            edge_id: None,
            optional_fields: Vec::new(),
        }
    }
}

impl Default for Link {
    fn default() -> (l: Link)
        ensures
            l.from_segment@.len() == 0,
            l.from_orient == Orientation::Forward,
            l.to_segment@.len() == 0,
            l.to_orient == Orientation::Forward,
            l.overlap@.len() == 0,
            l.map_quality is None,
            l.num_mismatches is None,
            l.read_count is None,
            l.fragment_count is None,
            l.kmer_count is None,
            l.edge_id is None,
            l.optional_fields@.len() == 0,
    {
        proof {
            reveal_strlit("");
        }
        Link::new("", Orientation::Forward, "", Orientation::Forward, "")
    }
}

/// The `C` record: one oriented segment contained in another at a
/// nonnegative offset.
#[derive(Debug, Clone, PartialEq, PartialOrd)]
pub struct Containment {
    pub container_name: String,
    pub container_orient: Orientation,
    pub contained_name: String,
    pub contained_orient: Orientation,
    pub pos: usize,
    pub overlap: String,
    pub read_coverage: Option<i64>,
    pub num_mismatches: Option<i64>,
    pub edge_id: Option<String>,
    pub optional_fields: Vec<OptionalField>,
}

impl Default for Containment {
    fn default() -> (c: Containment)
        ensures
            c.container_name@.len() == 0,
            c.container_orient == Orientation::Forward,
            c.contained_name@.len() == 0,
            c.contained_orient == Orientation::Forward,
            c.pos == 0,
            c.overlap@.len() == 0,
            c.read_coverage is None,
            c.num_mismatches is None,
            c.edge_id is None,
            c.optional_fields@.len() == 0,
    {
        Containment {
            container_name: String::new(),
            container_orient: Orientation::Forward,
            contained_name: String::new(),
            contained_orient: Orientation::Forward,
            pos: 0,
            overlap: String::new(),
            read_coverage: None,
            num_mismatches: None,
            edge_id: None,
            optional_fields: Vec::new(),
        }
    }
}

/// A token of a path's segment list: a nonempty name directly followed by
/// an orientation marker.
pub open spec fn valid_path_token(t: Seq<char>) -> bool {
    t.len() > 0 && Orientation::of_char(t.last()) is Some
}

/// The name part of a path token: everything but the final marker.
pub open spec fn path_token_name(t: Seq<char>) -> Seq<char> {
    t.drop_last()
}

/// The orientation of a path token: what its final marker denotes.
pub open spec fn path_token_orient(t: Seq<char>) -> Orientation {
    Orientation::of_char(t.last())->Some_0
}

/// The `P` record: an ordered walk through oriented segments, with a
/// parallel, independently stored list of overlap descriptors.
#[derive(Debug, Clone, PartialEq, PartialOrd)]
pub struct Path {
    pub path_name: String,
    pub segment_names: Vec<(String, Orientation)>,
    pub overlaps: Vec<String>,
    pub optional_fields: Vec<OptionalField>,
}

impl Path {
    /// Builds a path from segment tokens of the form `<name><+|->`. A token
    /// that is empty or does not end in an orientation marker is rejected
    /// with `MalformedPathToken`; untrusted input never aborts the caller.
    /// The overlap list is stored verbatim; its length is deliberately not
    /// matched against the segment list.
    pub fn new(path_name: &str, seg_names: Vec<&str>, overlaps: Vec<String>) -> (r: Result<
        Path,
        GfaError,
    >)
        ensures
            match r {
                Ok(p) => {
                    &&& forall|i: int|
                        0 <= i < seg_names@.len() ==> valid_path_token(#[trigger] seg_names@[i]@)
                    &&& p.path_name@ == path_name@
                    &&& p.segment_names@.len() == seg_names@.len()
                    &&& forall|i: int|
                        0 <= i < seg_names@.len() ==> {
                            &&& (#[trigger] p.segment_names@[i]).0@ == path_token_name(
                                seg_names@[i]@,
                            )
                            &&& p.segment_names@[i].1 == path_token_orient(seg_names@[i]@)
                        }
                    &&& p.overlaps == overlaps
                    &&& p.optional_fields@.len() == 0
                },
                Err(e) => {
                    &&& e == GfaError::MalformedPathToken
                    &&& exists|i: int|
                        0 <= i < seg_names@.len() && !valid_path_token(seg_names@[i]@)
                },
            },
    {
        let mut segment_names: Vec<(String, Orientation)> = Vec::new();
        let n = seg_names.len();
        let mut i: usize = 0;
        while i < n
            invariant
                i <= n == seg_names@.len(),
                segment_names@.len() == i,
                forall|j: int| 0 <= j < i ==> valid_path_token(#[trigger] seg_names@[j]@),
                forall|j: int|
                    0 <= j < i ==> {
                        &&& (#[trigger] segment_names@[j]).0@ == path_token_name(seg_names@[j]@)
                        &&& segment_names@[j].1 == path_token_orient(seg_names@[j]@)
                    },
            decreases n - i,
        {
            let t: &str = seg_names[i];
            let m = t.unicode_len();
            if m == 0 {
                proof {
                    assert(!valid_path_token(seg_names@[i as int]@));
                }
                return Err(GfaError::MalformedPathToken);
            }
            let c = t.get_char(m - 1);
            proof {
                assert(t@.last() == c);
            }
            let o: Orientation;
            if c == '+' {
                o = Orientation::Forward;
            } else if c == '-' {
                o = Orientation::Backward;
            } else {
                proof {
                    assert(!valid_path_token(seg_names@[i as int]@));
                }
                return Err(GfaError::MalformedPathToken);
            }
            let name = t.substring_char(0, m - 1).to_owned();
            proof {
                assert(t@.subrange(0, m as int - 1) =~= t@.drop_last());
            }
            segment_names.push((name, o));
            i = i + 1;
        }
        Ok(
            Path {
                path_name: path_name.to_owned(),
                segment_names,
                overlaps,
                optional_fields: Vec::new(),
            },
        )
    }
}

impl Default for Path {
    fn default() -> (p: Path)
        ensures
            p.path_name@.len() == 0,
            p.segment_names@.len() == 0,
            p.overlaps@.len() == 0,
            p.optional_fields@.len() == 0,
    {
        Path {
            path_name: String::new(),
            segment_names: Vec::new(),
            overlaps: Vec::new(),
            optional_fields: Vec::new(),
        }
    }
}

/// One parsed line of a GFA file: a record of one of the five kinds, or a
/// comment, which is recognized but carries nothing.
#[derive(Debug, Clone, PartialEq, PartialOrd)]
pub enum Line {
    Header(Header),
    Segment(Segment),
    Link(Link),
    Containment(Containment),
    Path(Path),
    Comment,
}

} // verus!
