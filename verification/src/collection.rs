//! The overall parse result: a pure accumulator of parsed lines, keyed by
//! record kind, with a config that selects which kinds are retained.

use vstd::prelude::*;

use crate::records::Containment;
use crate::records::Line;
use crate::records::Link;
use crate::records::Path;
use crate::records::Segment;

verus! {

/// Selects which record kinds a parse retains, so unwanted sections can be
/// skipped.
#[derive(Debug, Clone, PartialEq, Eq, Structural, PartialOrd)]
pub struct GFAParsingConfig {
    pub segments: bool,
    pub links: bool,
    pub containments: bool,
    pub paths: bool,
}

impl GFAParsingConfig {
    /// Retain no record kind.
    pub fn none() -> (c: GFAParsingConfig)
        ensures
            c == (GFAParsingConfig {
                segments: false,
                links: false,
                containments: false,
                paths: false,
            }),
    {
        GFAParsingConfig { segments: false, links: false, containments: false, paths: false }
    }

    /// Retain every record kind.
    pub fn all() -> (c: GFAParsingConfig)
        ensures
            c == (GFAParsingConfig {
                segments: true,
                links: true,
                containments: true,
                paths: true,
            }),
    {
        GFAParsingConfig { segments: true, links: true, containments: true, paths: true }
    }
}

/// The result of parsing a file: the declared version and one
/// insertion-ordered sequence per record kind. Not itself a graph.
#[derive(Debug, Clone, PartialEq, PartialOrd)]
pub struct GFA {
    pub version: Option<String>,
    pub segments: Vec<Segment>,
    pub links: Vec<Link>,
    pub containments: Vec<Containment>,
    pub paths: Vec<Path>,
}

impl GFA {
    /// An empty collection: no version, four empty sequences.
    pub fn new() -> (g: GFA)
        ensures
            g.version is None,
            g.segments@.len() == 0,
            g.links@.len() == 0,
            g.containments@.len() == 0,
            g.paths@.len() == 0,
    {
        GFA {
            version: None,
            segments: Vec::new(),
            links: Vec::new(),
            containments: Vec::new(),
            paths: Vec::new(),
        }
    }

    /// Feeds one parsed line, in file order. A header overwrites the
    /// version, so the last header wins; each record appends to its kind's
    /// sequence exactly when the config retains that kind; a comment
    /// changes nothing.
    pub fn insert_line(&mut self, line: Line, config: &GFAParsingConfig)
        ensures
            match line {
                Line::Header(h) => {
                    &&& final(self).version == h.version
                    &&& final(self).segments == old(self).segments
                    &&& final(self).links == old(self).links
                    &&& final(self).containments == old(self).containments
                    &&& final(self).paths == old(self).paths
                },
                Line::Segment(s) => {
                    &&& final(self).segments@ == (if config.segments {
                        old(self).segments@.push(s)
                    } else {
                        old(self).segments@
                    })
                    &&& final(self).version == old(self).version
                    &&& final(self).links == old(self).links
                    &&& final(self).containments == old(self).containments
                    &&& final(self).paths == old(self).paths
                },
                Line::Link(l) => {
                    &&& final(self).links@ == (if config.links {
                        old(self).links@.push(l)
                    } else {
                        old(self).links@
                    })
                    &&& final(self).version == old(self).version
                    &&& final(self).segments == old(self).segments
                    &&& final(self).containments == old(self).containments
                    &&& final(self).paths == old(self).paths
                },
                Line::Containment(c) => {
                    &&& final(self).containments@ == (if config.containments {
                        old(self).containments@.push(c)
                    } else {
                        old(self).containments@
                    })
                    &&& final(self).version == old(self).version
                    &&& final(self).segments == old(self).segments
                    &&& final(self).links == old(self).links
                    &&& final(self).paths == old(self).paths
                },
                Line::Path(p) => {
                    &&& final(self).paths@ == (if config.paths {
                        old(self).paths@.push(p)
                    } else {
                        old(self).paths@
                    })
                    &&& final(self).version == old(self).version
                    &&& final(self).segments == old(self).segments
                    &&& final(self).links == old(self).links
                    &&& final(self).containments == old(self).containments
                },
                Line::Comment => *final(self) == *old(self),
            },
    {
        match line {
            Line::Header(h) => {
                self.version = h.version;
            },
            Line::Segment(s) => {
                if config.segments {
                    self.segments.push(s);
                }
            },
            Line::Link(l) => {
                if config.links {
                    self.links.push(l);
                }
            },
            Line::Containment(c) => {
                if config.containments {
                    self.containments.push(c);
                }
            },
            Line::Path(p) => {
                if config.paths {
                    self.paths.push(p);
                }
            },
            Line::Comment => {},
        }
    }
}

impl Default for GFA {
    fn default() -> (g: GFA)
        ensures
            g.version is None,
            g.segments@.len() == 0,
            g.links@.len() == 0,
            g.containments@.len() == 0,
            g.paths@.len() == 0,
    {
        GFA::new()
    }
}

} // verus!
