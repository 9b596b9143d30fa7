//! Module import patterns: which exported symbols an import or a hide
//! operation selects.
//!
//! A pattern is a head (the module name) followed by members: a glob
//! (every exported name), one name, or an explicit list of names.

use vstd::prelude::*;

use crate::span::{max_end, min_start, Span};

verus! {

broadcast use vstd::std_specs::vec::group_vec_axioms;

/// One member of an import pattern.
#[derive(Debug)]
pub enum ImportPatternMember {
    Glob { span: Span },
    Name { name: Vec<u8>, span: Span },
    List { names: Vec<(Vec<u8>, Span)> },
}

/// The ghost image of a pattern member.
#[verifier::ext_equal]
pub ghost enum IpmModel {
    Glob { span: Span },
    Name { name: Seq<u8>, span: Span },
    List { names: Seq<(Seq<u8>, Span)> },
}

/// Maps a member onto its image.
pub open spec fn ipm_model(m: ImportPatternMember) -> IpmModel {
    match m {
        ImportPatternMember::Glob { span } => IpmModel::Glob { span },
        ImportPatternMember::Name { name, span } => IpmModel::Name { name: name@, span },
        ImportPatternMember::List { names } => IpmModel::List {
            names: Seq::new(names@.len(), |i: int| (names@[i].0@, names@[i].1)),
        },
    }
}

impl View for ImportPatternMember {
    type V = IpmModel;

    open spec fn view(&self) -> IpmModel {
        ipm_model(*self)
    }
}

impl DeepView for ImportPatternMember {
    type V = IpmModel;

    open spec fn deep_view(&self) -> IpmModel {
        ipm_model(*self)
    }
}

/// The head of a pattern: the module name and where it stood.
#[derive(Debug)]
pub struct ImportPatternHead {
    pub name: Vec<u8>,
    pub span: Span,
}

/// A whole import pattern. `hidden` carries the names a hide operation
/// over this pattern suppressed, so an evaluator does not mistake them
/// for environment names still to process.
#[derive(Debug)]
pub struct ImportPattern {
    pub head: ImportPatternHead,
    pub members: Vec<ImportPatternMember>,
    pub hidden: Vec<Vec<u8>>,
}

impl ImportPattern {
    /// The empty pattern: an unnamed head at the unknown span.
    pub fn new() -> (r: ImportPattern)
        ensures
            r.head.name@ == Seq::<u8>::empty(),
            r.head.span == (Span { start: 0, end: 0 }),
            r.members@.len() == 0,
            r.hidden@.len() == 0,
    {
        ImportPattern {
            head: ImportPatternHead { name: Vec::new(), span: Span::unknown() },
            members: Vec::new(),
            hidden: Vec::new(),
        }
    }

    /// The minimal span covering the head and every member.
    pub fn span(&self) -> (r: Span)
        ensures
            ({
                let all = pattern_spans(*self);
                all.len() > 0 && r.start == min_start(all, all.len() as int) && r.end == max_end(
                    all,
                    all.len() as int,
                )
            }),
    {
        let mut spans: Vec<Span> = Vec::new();
        spans.push(self.head.span);
        let mut i: usize = 0;
        while i < self.members.len()
            invariant
                0 <= i <= self.members@.len(),
                spans@ == seq![self.head.span] + member_spans_upto(self.members@, i as int),
            decreases self.members@.len() - i,
        {
            match &self.members[i] {
                ImportPatternMember::Glob { span } => {
                    spans.push(*span);
                },
                ImportPatternMember::Name { span, .. } => {
                    spans.push(*span);
                },
                ImportPatternMember::List { names } => {
                    let mut j: usize = 0;
                    while j < names.len()
                        invariant
                            0 <= j <= names@.len(),
                            self.members@[i as int] matches ImportPatternMember::List {
                                names: nn,
                            } && nn@ == names@,
                            spans@ == seq![self.head.span] + member_spans_upto(
                                self.members@,
                                i as int,
                            ) + list_spans(names@).take(j as int),
                        decreases names@.len() - j,
                    {
                        spans.push(names[j].1);
                        proof {
                            assert(list_spans(names@).take(j as int + 1) =~= list_spans(
                                names@,
                            ).take(j as int).push(names@[j as int].1));
                            assert(spans@ =~= seq![self.head.span] + member_spans_upto(
                                self.members@,
                                i as int,
                            ) + list_spans(names@).take(j as int + 1));
                        }
                        j = j + 1;
                    }
                    proof {
                        assert(list_spans(names@).take(names@.len() as int) =~= list_spans(names@));
                    }
                },
            }
            proof {
                assert(member_spans_upto(self.members@, i as int + 1) =~= member_spans_upto(
                    self.members@,
                    i as int,
                ) + member_spans(self.members@[i as int]));
                assert(spans@ =~= seq![self.head.span] + member_spans_upto(
                    self.members@,
                    i as int + 1,
                ));
            }
            i = i + 1;
        }
        proof {
            assert(spans@ =~= pattern_spans(*self));
        }
        crate::span::span(&spans)
    }

    /// The same pattern with the given hidden-name set attached.
    pub fn with_hidden(self, hidden: Vec<Vec<u8>>) -> (r: ImportPattern)
        ensures
            r.head == self.head,
            r.members == self.members,
            r.hidden == hidden,
    {
        ImportPattern { head: self.head, members: self.members, hidden }
    }
}

impl Default for ImportPattern {
    /// The default pattern is the empty one.
    fn default() -> (r: Self)
        ensures
            r.head.name@ == Seq::<u8>::empty(),
            r.members@.len() == 0,
            r.hidden@.len() == 0,
    {
        Self::new()
    }
}

/// The spans a list member contributes, in order.
pub open spec fn list_spans(names: Seq<(Vec<u8>, Span)>) -> Seq<Span> {
    Seq::new(names.len(), |i: int| names[i].1)
}

/// The spans one member contributes.
pub open spec fn member_spans(m: ImportPatternMember) -> Seq<Span> {
    match m {
        ImportPatternMember::Glob { span } => seq![span],
        ImportPatternMember::Name { span, .. } => seq![span],
        ImportPatternMember::List { names } => list_spans(names@),
    }
}

/// The spans of the first `n` members, concatenated in order.
pub open spec fn member_spans_upto(ms: Seq<ImportPatternMember>, n: int) -> Seq<Span>
    decreases n,
{
    if n <= 0 {
        Seq::empty()
    } else {
        member_spans_upto(ms, n - 1) + member_spans(ms[n - 1])
    }
}

/// Every span the pattern covers: the head's, then each member's.
pub open spec fn pattern_spans(p: ImportPattern) -> Seq<Span> {
    seq![p.head.span] + member_spans_upto(p.members@, p.members@.len() as int)
}

} // verus!
