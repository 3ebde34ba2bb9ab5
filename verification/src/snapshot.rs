//! What is done where a file changed while an operation was under way.

use vstd::prelude::*;

use crate::error::{bool_outcome, error_text, unit_outcome, AppError, ErrorView};
use crate::text::{join2, join3, join4};

verus! {

/// Whether an operation may go on: the file is what it was. `label` names the file.
pub open spec fn unchanged_verdict(
    unchanged: Result<bool, ErrorView>,
    label: Seq<char>,
    path: Seq<char>,
) -> Result<(), ErrorView> {
    match unchanged {
        Err(error) => Err(error),
        Ok(true) => Ok(()),
        Ok(false) => Err(
            ErrorView::Other(label + "在操作期间发生变化，已取消提交: "@ + path),
        ),
    }
}

/// Refuses to go on where a file is no longer what it was.
pub fn require_unchanged_snapshot(unchanged: Result<bool, AppError>, label: &str, path: &str) -> (outcome:
    Result<(), AppError>)
    ensures
        unit_outcome(outcome) == unchanged_verdict(bool_outcome(unchanged), label@, path@),
{
    match unchanged {
        Err(error) => Err(error),
        Ok(true) => Ok(()),
        Ok(false) => Err(
            AppError::Other(
                join3(label, "在操作期间发生变化，已取消提交: ", path),
            ),
        ),
    }
}

/// Whether a new rollout may be put in its place once it was written: its source is what it
/// was.
pub open spec fn copy_may_commit(unchanged: Result<bool, ErrorView>, source: Seq<char>) -> Result<
    (),
    ErrorView,
> {
    match unchanged {
        Err(error) => Err(error),
        Ok(true) => Ok(()),
        Ok(false) => Err(
            ErrorView::Other(
                "源 rollout 在复制期间发生变化，已取消新会话创建: "@ + source,
            ),
        ),
    }
}

/// Refuses to put a new rollout in its place where its source is no longer what it was.
pub fn require_unchanged_source(unchanged: Result<bool, AppError>, source: &str) -> (outcome: Result<
    (),
    AppError,
>)
    ensures
        unit_outcome(outcome) == copy_may_commit(bool_outcome(unchanged), source@),
{
    match unchanged {
        Err(error) => Err(error),
        Ok(true) => Ok(()),
        Ok(false) => Err(
            AppError::Other(
                join2("源 rollout 在复制期间发生变化，已取消新会话创建: ", source),
            ),
        ),
    }
}

/// Whether a new rollout that was put in its place has to go again: its source changed, or
/// cannot be looked at any more.
pub open spec fn has_to_go(unchanged: Result<bool, ErrorView>) -> bool {
    !(unchanged matches Ok(true))
}

/// Whether a new rollout that was put in its place has to go again.
pub fn new_rollout_has_to_go(unchanged: &Result<bool, AppError>) -> (gone: bool)
    ensures
        gone == has_to_go(bool_outcome(*unchanged)),
{
    match unchanged {
        Ok(unchanged) => !*unchanged,
        Err(_) => true,
    }
}

/// What is said of a source that could not be looked at.
pub open spec fn source_detail(unchanged: Result<bool, ErrorView>) -> Seq<char> {
    match unchanged {
        Err(error) => ": "@ + error_text(error),
        Ok(_) => Seq::empty(),
    }
}

/// The error where a new rollout had to go again. `removed` tells whether it could be
/// removed, or why not.
pub open spec fn gone_error(
    unchanged: Result<bool, ErrorView>,
    removed: Result<(), ErrorView>,
    source: Seq<char>,
    new: Seq<char>,
) -> ErrorView {
    match removed {
        Ok(()) => ErrorView::Other(
            "源 rollout 在复制提交时发生变化，已移除未登记会话"@ + source_detail(unchanged)
                + ": "@ + source,
        ),
        Err(error) => ErrorView::Other(
            "源 rollout 在复制提交时发生变化"@ + source_detail(unchanged)
                + "，且未登记会话清理失败 "@ + new + ": "@ + error_text(error),
        ),
    }
}

/// The error where a new rollout had to go again.
pub fn explain_removal(
    unchanged: &Result<bool, AppError>,
    removed: &Result<(), AppError>,
    source: &str,
    new: &str,
) -> (error: AppError)
    ensures
        error@ == gone_error(bool_outcome(*unchanged), unit_outcome(*removed), source@, new@),
{
    let detail = match unchanged {
        Err(error) => join2(": ", error.message().as_str()),
        Ok(_) => String::new(),
    };
    match removed {
        Ok(()) => AppError::Other(
            join4(
                "源 rollout 在复制提交时发生变化，已移除未登记会话",
                detail.as_str(),
                ": ",
                source,
            ),
        ),
        Err(error) => {
            let first = join4(
                "源 rollout 在复制提交时发生变化",
                detail.as_str(),
                "，且未登记会话清理失败 ",
                new,
            );
            AppError::Other(join3(first.as_str(), ": ", error.message().as_str()))
        },
    }
}

/// The kinds of entries that a path can have.
#[derive(Clone, Copy, PartialEq, Eq, Structural)]
pub enum EntryKind {
    /// Nothing.
    Missing,
    /// A plain file.
    File,
    /// A directory, a link or anything else.
    Other,
}

/// Whether lines replace a file rather than make one.
pub open spec fn rewrite_verdict(kind: EntryKind, path: Seq<char>) -> Result<bool, ErrorView> {
    match kind {
        EntryKind::File => Ok(true),
        EntryKind::Missing => Ok(false),
        EntryKind::Other => Err(
            ErrorView::Path("待重写路径不是普通文件或属于链接/junction: "@ + path),
        ),
    }
}

/// Tells whether lines replace a file rather than make one; refuses to replace anything that
/// is no plain file.
pub fn rewrite_replaces_file(kind: EntryKind, path: &str) -> (replaces: Result<bool, AppError>)
    ensures
        bool_outcome(replaces) == rewrite_verdict(kind, path@),
{
    match kind {
        EntryKind::File => Ok(true),
        EntryKind::Missing => Ok(false),
        EntryKind::Other => Err(
            AppError::Path(
                join2("待重写路径不是普通文件或属于链接/junction: ", path),
            ),
        ),
    }
}

/// A change is committed just where the file is known to be unchanged; the same decides whether a
/// copy may be made and whether a new rollout may stay.
pub proof fn law_only_unchanged_files_pass(
    unchanged: Result<bool, ErrorView>,
    label: Seq<char>,
    path: Seq<char>,
)
    ensures
        unchanged_verdict(unchanged, label, path) is Ok <==> unchanged == Ok::<bool, ErrorView>(true),
        copy_may_commit(unchanged, path) is Ok <==> unchanged == Ok::<bool, ErrorView>(true),
        has_to_go(unchanged) <==> unchanged != Ok::<bool, ErrorView>(true),
        unchanged matches Err(error) ==> unchanged_verdict(unchanged, label, path) == Err::<
            (),
            ErrorView,
        >(error) && copy_may_commit(unchanged, path) == Err::<(), ErrorView>(error),
{
}

/// A plain file is replaced, nothing is not, and anything else is refused.
pub proof fn law_only_plain_files_are_replaced(kind: EntryKind, path: Seq<char>)
    ensures
        rewrite_verdict(kind, path) is Err <==> kind is Other,
        rewrite_verdict(kind, path) == Ok::<bool, ErrorView>(true) <==> kind is File,
{
}

} // verus!
