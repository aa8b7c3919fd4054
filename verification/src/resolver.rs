//! The location resolver: maps a program location of a function to the
//! source ranges that are executing there.
//!
//! A function's body is described by the source ranges of its constructs
//! (statements and expressions) and by its sites: the program locations and
//! the range of the instruction at each. Indexing a body against its
//! constructs is the expensive part, so it is done once for each function
//! and kept.

use crate::spans::{merge_overlaps, merged_from, merged_ranges};
use std::collections::HashMap;
use vstd::prelude::*;

verus! {

/// A statement or expression of a function.
#[derive(Debug)]
pub struct Construct {
    /// The whole of the construct.
    pub full: (usize, usize),
    /// The parts of it that belong to no construct nested in it.
    pub outer: Vec<(usize, usize)>,
}

/// A program location and the source range of the instruction there.
#[derive(Debug, Clone, Copy, PartialEq, Eq)]
pub struct Site {
    pub block: usize,
    pub statement: usize,
    pub span: (usize, usize),
}

/// What the resolver needs to know of a function.
#[derive(Debug)]
pub struct Body {
    /// The range of the function's body.
    pub span: (usize, usize),
    pub constructs: Vec<Construct>,
    pub sites: Vec<Site>,
}

/// Where a frame is executing: at a program location, or, where the machine
/// has no such location to give, at a bare source range.
#[derive(Debug, Clone, Copy, PartialEq, Eq)]
pub enum Location {
    At { block: usize, statement: usize },
    Span { lo: usize, hi: usize },
}

/// One entry of a function's index: a program location and the ranges that
/// are executing there.
#[derive(Debug, Clone)]
pub struct SpanEntry {
    pub block: usize,
    pub statement: usize,
    pub spans: Vec<(usize, usize)>,
}

/// The index of one function: for each of its sites the ranges executing
/// there.
#[derive(Debug)]
pub struct Spanner {
    pub body_span: (usize, usize),
    pub entries: Vec<SpanEntry>,
}

/// Mathematical model of a function's index.
pub struct SpannerView {
    pub body_span: (usize, usize),
    pub entries: Seq<(usize, usize, Seq<(usize, usize)>)>,
}

/// Whether `inner` is a range with its ends in order that lies within `outer`.
pub open spec fn encloses(outer: (usize, usize), inner: (usize, usize)) -> bool {
    outer.0 <= inner.0 <= inner.1 <= outer.1
}

/// Number of offsets that a range spans.
pub open spec fn width(range: (usize, usize)) -> int {
    range.1 - range.0
}

/// Whether construct `i` is the innermost one around `target`: it encloses
/// the target, no enclosing construct is narrower, and of those just as
/// narrow it comes first.
pub open spec fn is_innermost(constructs: Seq<Construct>, target: (usize, usize), i: int) -> bool {
    &&& 0 <= i < constructs.len()
    &&& encloses(constructs[i].full, target)
    &&& forall|j: int|
        0 <= j < constructs.len() && encloses((#[trigger] constructs[j]).full, target) ==> width(
            constructs[i].full,
        ) < width(constructs[j].full) || (width(constructs[i].full) == width(constructs[j].full)
            && i <= j)
}

/// Whether any construct encloses `target`.
pub open spec fn has_enclosing(constructs: Seq<Construct>, target: (usize, usize)) -> bool {
    exists|j: int| 0 <= j < constructs.len() && encloses((#[trigger] constructs[j]).full, target)
}

/// The ranges executing at an instruction whose range is `span`: the outer
/// parts of the innermost construct around it, and the instruction itself.
/// An instruction outside the function's body has none.
pub open spec fn site_spans(body: Body, span: (usize, usize)) -> Seq<(usize, usize)> {
    if !encloses(body.span, span) {
        Seq::empty()
    } else if has_enclosing(body.constructs@, span) {
        let i = choose|i: int| is_innermost(body.constructs@, span, i);
        body.constructs@[i].outer@.push(span)
    } else {
        seq![span]
    }
}

/// The index of a body: its sites in order, each with its ranges.
pub open spec fn index_of(body: Body) -> SpannerView {
    SpannerView {
        body_span: body.span,
        entries: Seq::new(
            body.sites.len() as nat,
            |i: int|
                (
                    body.sites@[i].block,
                    body.sites@[i].statement,
                    site_spans(body, body.sites@[i].span),
                ),
        ),
    }
}

/// Position of the first entry at or after `from` for the given location.
pub open spec fn find_entry(
    entries: Seq<(usize, usize, Seq<(usize, usize)>)>,
    block: usize,
    statement: usize,
    from: int,
) -> Option<int>
    decreases entries.len() - from,
{
    if from < 0 || from >= entries.len() {
        None
    } else if entries[from].0 == block && entries[from].1 == statement {
        Some(from)
    } else {
        find_entry(entries, block, statement, from + 1)
    }
}

/// The ranges that an index holds for a location: those of the first entry
/// for it, or none where it has no entry.
pub open spec fn lookup(index: SpannerView, block: usize, statement: usize) -> Seq<(usize, usize)> {
    match find_entry(index.entries, block, statement, 0) {
        Some(i) => index.entries[i].2,
        None => Seq::empty(),
    }
}

/// The ranges executing at a location, before merging. A bare range stands
/// for itself where it lies in the function's body, and for nothing where it
/// does not. No location, no ranges.
pub open spec fn spans_at(index: SpannerView, location: Option<Location>) -> Seq<(usize, usize)> {
    match location {
        Some(Location::At { block, statement }) => lookup(index, block, statement),
        Some(Location::Span { lo, hi }) => if encloses(index.body_span, (lo, hi)) {
            seq![(lo, hi)]
        } else {
            Seq::empty()
        },
        None => Seq::empty(),
    }
}

/// Only one construct is the innermost one.
pub proof fn lemma_innermost_unique(
    constructs: Seq<Construct>,
    target: (usize, usize),
    i: int,
    j: int,
)
    requires
        is_innermost(constructs, target, i),
        is_innermost(constructs, target, j),
    ensures
        i == j,
{
}

/// Finds the innermost construct around `target`.
pub fn innermost(constructs: &Vec<Construct>, target: (usize, usize)) -> (found: Option<usize>)
    ensures
        match found {
            Some(i) => is_innermost(constructs@, target, i as int),
            None => !has_enclosing(constructs@, target),
        },
{
    let mut best: Option<usize> = None;
    let mut i: usize = 0;
    while i < constructs.len()
        invariant
            i <= constructs.len(),
            match best {
                Some(b) => {
                    &&& b < i
                    &&& encloses(constructs@[b as int].full, target)
                    &&& forall|j: int|
                        0 <= j < i && encloses((#[trigger] constructs@[j]).full, target) ==> width(
                            constructs@[b as int].full,
                        ) < width(constructs@[j].full) || (width(constructs@[b as int].full)
                            == width(constructs@[j].full) && b <= j)
                },
                None => forall|j: int|
                    0 <= j < i ==> !encloses((#[trigger] constructs@[j]).full, target),
            },
        decreases constructs.len() - i,
    {
        let full = constructs[i].full;
        if full.0 <= target.0 && target.0 <= target.1 && target.1 <= full.1 {
            match best {
                Some(b) => {
                    let held = constructs[b].full;
                    if full.1 - full.0 < held.1 - held.0 {
                        best = Some(i);
                    }
                },
                None => {
                    best = Some(i);
                },
            }
        }
        i = i + 1;
    }
    best
}

/// Copies a list of ranges.
pub fn copy_ranges(ranges: &Vec<(usize, usize)>) -> (copy: Vec<(usize, usize)>)
    ensures
        copy@ == ranges@,
{
    let mut copy: Vec<(usize, usize)> = Vec::new();
    let mut k: usize = 0;
    while k < ranges.len()
        invariant
            k <= ranges.len(),
            copy@ == ranges@.take(k as int),
        decreases ranges.len() - k,
    {
        copy.push(ranges[k]);
        proof {
            assert(copy@ =~= ranges@.take(k + 1));
        }
        k = k + 1;
    }
    proof {
        assert(ranges@.take(ranges.len() as int) =~= ranges@);
    }
    copy
}

impl View for Spanner {
    type V = SpannerView;

    open spec fn view(&self) -> SpannerView {
        SpannerView {
            body_span: self.body_span,
            entries: Seq::new(
                self.entries.len() as nat,
                |i: int|
                    (self.entries@[i].block, self.entries@[i].statement, self.entries@[i].spans@),
            ),
        }
    }
}

impl Spanner {
    /// Indexes a body: resolves every site against the constructs.
    pub fn new(body: &Body) -> (spanner: Spanner)
        ensures
            spanner@ == index_of(*body),
    {
        let mut entries: Vec<SpanEntry> = Vec::new();
        let mut i: usize = 0;
        while i < body.sites.len()
            invariant
                i <= body.sites.len(),
                entries.len() == i,
                forall|k: int|
                    0 <= k < i ==> {
                        &&& (#[trigger] entries@[k]).block == body.sites@[k].block
                        &&& entries@[k].statement == body.sites@[k].statement
                        &&& entries@[k].spans@ == site_spans(*body, body.sites@[k].span)
                    },
            decreases body.sites.len() - i,
        {
            let site = body.sites[i];
            let span = site.span;
            let mut spans: Vec<(usize, usize)> = Vec::new();
            if body.span.0 <= span.0 && span.0 <= span.1 && span.1 <= body.span.1 {
                match innermost(&body.constructs, span) {
                    Some(c) => {
                        proof {
                            let chosen = choose|c: int| is_innermost(body.constructs@, span, c);
                            lemma_innermost_unique(body.constructs@, span, c as int, chosen);
                        }
                        spans = copy_ranges(&body.constructs[c].outer);
                        spans.push(span);
                    },
                    None => {
                        spans.push(span);
                        proof {
                            assert(spans@ =~= seq![span]);
                        }
                    },
                }
            }
            entries.push(SpanEntry { block: site.block, statement: site.statement, spans });
            i = i + 1;
        }
        let spanner = Spanner { body_span: body.span, entries };
        proof {
            assert(spanner@.entries =~= index_of(*body).entries);
        }
        spanner
    }

    /// The ranges executing at a program location, before merging.
    pub fn location_to_spans(&self, block: usize, statement: usize) -> (spans: Vec<(usize, usize)>)
        ensures
            spans@ == lookup(self@, block, statement),
    {
        let mut i: usize = 0;
        while i < self.entries.len()
            invariant
                i <= self.entries.len(),
                find_entry(self@.entries, block, statement, 0) == find_entry(
                    self@.entries,
                    block,
                    statement,
                    i as int,
                ),
            decreases self.entries.len() - i,
        {
            let entry = &self.entries[i];
            if entry.block == block && entry.statement == statement {
                return copy_ranges(&entry.spans);
            }
            i = i + 1;
        }
        Vec::new()
    }

    /// The ranges executing at a location, before merging.
    pub fn spans_for(&self, location: &Option<Location>) -> (spans: Vec<(usize, usize)>)
        ensures
            spans@ == spans_at(self@, *location),
    {
        match location {
            Some(Location::At { block, statement }) => self.location_to_spans(*block, *statement),
            Some(Location::Span { lo, hi }) => {
                let mut spans: Vec<(usize, usize)> = Vec::new();
                if self.body_span.0 <= *lo && *lo <= *hi && *hi <= self.body_span.1 {
                    spans.push((*lo, *hi));
                    proof {
                        assert(spans@ =~= seq![(*lo, *hi)]);
                    }
                }
                spans
            },
            None => Vec::new(),
        }
    }
}

/// The resolver: the indexes of the functions seen so far, by function
/// identity.
pub struct Resolver {
    spanners: HashMap<u64, Spanner>,
}

impl View for Resolver {
    type V = Map<u64, SpannerView>;

    closed spec fn view(&self) -> Map<u64, SpannerView> {
        self.spanners@.map_values(|spanner: Spanner| spanner@)
    }
}

/// The indexes that a resolver holds once it has been asked about a function:
/// the function's index is built if it was not there, everything else stays.
pub open spec fn with_index(known: Map<u64, SpannerView>, def_id: u64, body: Body) -> Map<
    u64,
    SpannerView,
> {
    if known.contains_key(def_id) {
        known
    } else {
        known.insert(def_id, index_of(body))
    }
}

impl Resolver {
    /// A resolver that has seen no function yet.
    pub fn new() -> (resolver: Resolver)
        ensures
            resolver@ == Map::<u64, SpannerView>::empty(),
    {
        let resolver = Resolver { spanners: HashMap::new() };
        proof {
            assert(resolver@ =~= Map::<u64, SpannerView>::empty());
        }
        resolver
    }

    /// Makes sure that the function's index is there, building it from the
    /// body on first use.
    pub fn spanner(&mut self, def_id: u64, body: &Body)
        ensures
            final(self)@ == with_index(old(self)@, def_id, *body),
            final(self)@.contains_key(def_id),
    {
        if !self.spanners.contains_key(&def_id) {
            let ghost before = self.spanners@;
            let spanner = Spanner::new(body);
            self.spanners.insert(def_id, spanner);
            proof {
                assert(self@ =~= before.map_values(|spanner: Spanner| spanner@).insert(
                    def_id,
                    index_of(*body),
                ));
            }
        }
    }

    /// The source ranges executing at a location of a function, merged into
    /// separate regions in source order.
    pub fn ranges_for(&mut self, location: &Option<Location>, def_id: u64, body: &Body) -> (ranges:
        Vec<(usize, usize)>)
        ensures
            final(self)@ == with_index(old(self)@, def_id, *body),
            merged_from(ranges@, spans_at(final(self)@[def_id], *location)),
            ranges@ == merged_ranges(spans_at(final(self)@[def_id], *location)),
    {
        self.spanner(def_id, body);
        let spanner = self.spanners.get(&def_id).unwrap();
        let spans = spanner.spans_for(location);
        merge_overlaps(&spans)
    }
}

} // verus!
