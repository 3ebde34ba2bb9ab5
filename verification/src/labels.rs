//! What sessions are called and belong to: the titles and names of their threads rows, their names
//! in the session index, their projects, where they were converted from, and the families as they
//! were last written.

use vstd::prelude::*;

use crate::effects::FamilyState;
use crate::rollout::{line_records, record_preview, text_or, RolloutLineView};
use crate::seqs::first_found;
use crate::steps::AssignmentView;
use crate::text::head_of;

verus! {

/// The title and the name that the threads row of a session has.
#[verifier::ext_equal]
pub struct TitleView {
    pub title: Seq<char>,
    pub name: Seq<char>,
}

/// What sessions are called and belong to.
#[verifier::ext_equal]
pub struct LabelsView {
    pub titles: Map<Seq<char>, TitleView>,
    pub names: Map<Seq<char>, Seq<char>>,
    pub projects: Map<Seq<char>, Seq<char>>,
    pub provenance: Map<Seq<char>, Seq<char>>,
    pub saved: Map<Seq<char>, FamilyState>,
}

/// Whether the state database takes a text for none: it has nothing but spaces.
pub open spec fn is_spaces(text: Seq<char>) -> bool {
    forall|i: int| 0 <= i < text.len() ==> #[trigger] text[i] == ' '
}

/// The first message of a user in a rollout with these lines.
pub open spec fn first_message(lines: Seq<Seq<char>>) -> Seq<char> {
    let records = lines.map_values(
        |line: Seq<char>| RolloutLineView { text: line, token_total: None },
    ).filter_map(line_records());
    text_or(first_found(records, record_preview()), Seq::empty())
}

impl LabelsView {
    /// After the threads row of a session was written for a rollout with these lines: a title and
    /// a name that it has are kept, and else the first message starts the title.
    pub open spec fn entitled(self, id: Seq<char>, lines: Seq<Seq<char>>) -> LabelsView {
        let kept = self.titles[id];
        LabelsView {
            titles: self.titles.insert(
                id,
                TitleView {
                    title: if self.titles.contains_key(id) && !is_spaces(kept.title) {
                        kept.title
                    } else {
                        head_of(first_message(lines), 80)
                    },
                    name: if self.titles.contains_key(id) && !is_spaces(kept.name) {
                        kept.name
                    } else {
                        Seq::empty()
                    },
                },
            ),
            ..self
        }
    }

    /// After title and name of a session were carried to another, each where it has one.
    pub open spec fn carried(self, from: Seq<char>, to: Seq<char>) -> LabelsView {
        if self.titles.contains_key(from) && self.titles.contains_key(to) {
            LabelsView {
                titles: self.titles.insert(
                    to,
                    TitleView {
                        title: if is_spaces(self.titles[from].title) {
                            self.titles[to].title
                        } else {
                            self.titles[from].title
                        },
                        name: if is_spaces(self.titles[from].name) {
                            self.titles[to].name
                        } else {
                            self.titles[from].name
                        },
                    },
                ),
                ..self
            }
        } else {
            self
        }
    }

    /// After a session was assigned to a project, where there is one to assign it to.
    pub open spec fn assigned(
        self,
        assignment: Option<AssignmentView>,
        missing_only: bool,
        deferred: bool,
    ) -> LabelsView {
        match assignment {
            Some(assignment) => if deferred || (missing_only && self.projects.contains_key(
                assignment.thread_id,
            )) {
                self
            } else {
                LabelsView {
                    projects: self.projects.insert(assignment.thread_id, assignment.cwd),
                    ..self
                }
            },
            None => self,
        }
    }
}

} // verus!
