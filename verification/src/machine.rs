//! Archiving one file, as a state machine: the library decides, the caller
//! performs the action it is handed (read a file, list a directory, create a
//! directory, read the clock, write a file) and hands back what happened.

use vstd::prelude::*;
use crate::plan::ArchiveTarget;
use crate::record::{archived_code, encode_record, record_code, record_model, record_text};
use crate::stamp::{
    archive_file_name, archive_name, archive_stamp_of, is_newest_archive,
    law_archive_name_round_trip, lemma_newest_archive_unique, newest_archive,
    newest_archive_index, stamp_lt, views_of,
};

verus! {

/// How archiving one file ended.
#[derive(Clone, Copy, PartialEq, Eq, Debug, Structural)]
pub enum ArchiveOutcome {
    /// A new copy was written.
    Archived,
    /// The newest archived copy already holds this content.
    Unchanged,
    /// The file could not be read as text (binary, removed again, ...).
    Unreadable,
    /// The archive directory could not be created.
    DirFailed,
    /// Writing the record failed.
    WriteFailed,
}

/// What the caller is asked to do next.
pub enum ArchiveAction {
    /// Read the file, as text, from the repository.
    ReadSource,
    /// List the names in the file's archive directory.
    ListArchive,
    /// Read the archived copy with this name from the archive directory.
    ReadArchived { name: String },
    /// Create the archive directory and its parents.
    CreateDir,
    /// Read the clock.
    ReadClock,
    /// Write `contents` under `name` into the archive directory.
    Write { name: String, contents: String },
    /// Nothing more to do for this file.
    Finish { outcome: ArchiveOutcome },
}

/// What happened when the caller did what it was asked.
pub enum ArchiveEvent {
    /// The file's text, `None` when it could not be read as text.
    SourceRead { contents: Option<String> },
    /// The names in the archive directory (none when it cannot be listed).
    ArchiveListed { names: Vec<String> },
    /// The archived copy's text, `None` when it could not be read.
    ArchivedRead { contents: Option<String> },
    /// Whether the archive directory now exists.
    DirCreated { ok: bool },
    /// The time: whole seconds and microseconds since the Unix epoch.
    ClockRead { secs: u64, micros: u32 },
    /// Whether the write succeeded.
    Written { ok: bool },
}

/// Where archiving one file stands; `code` is the file's content once read.
pub enum ArchiveStage {
    ReadingSource,
    Listing { code: String },
    ReadingArchived { code: String },
    CreatingDir { code: String },
    ReadingClock { code: String },
    Writing,
    Finished { outcome: ArchiveOutcome },
}

/// How far along a stage is; every step moves strictly forward.
pub open spec fn stage_rank(stage: ArchiveStage) -> nat {
    match stage {
        ArchiveStage::ReadingSource => 0,
        ArchiveStage::Listing { .. } => 1,
        ArchiveStage::ReadingArchived { .. } => 2,
        ArchiveStage::CreatingDir { .. } => 3,
        ArchiveStage::ReadingClock { .. } => 4,
        ArchiveStage::Writing => 5,
        ArchiveStage::Finished { .. } => 6,
    }
}

/// The event is the answer to the action that `stage` was entered with.
pub open spec fn awaits(stage: ArchiveStage, event: ArchiveEvent) -> bool {
    match stage {
        ArchiveStage::ReadingSource => event is SourceRead,
        ArchiveStage::Listing { .. } => event is ArchiveListed,
        ArchiveStage::ReadingArchived { .. } => event is ArchivedRead,
        ArchiveStage::CreatingDir { .. } => event is DirCreated,
        ArchiveStage::ReadingClock { .. } => event is ClockRead,
        ArchiveStage::Writing => event is Written,
        ArchiveStage::Finished { .. } => false,
    }
}

/// Archiving ends with `outcome`.
pub open spec fn finishes(next: ArchiveStage, action: ArchiveAction, outcome: ArchiveOutcome) -> bool {
    next == (ArchiveStage::Finished { outcome }) && action == (ArchiveAction::Finish { outcome })
}

/// The content that the newest archived copy holds, given its text.
pub open spec fn newest_code(contents: Option<String>) -> Option<Seq<char>> {
    match contents {
        Some(text) => record_code(text@),
        None => None,
    }
}

/// One step of archiving `target` for `model`: from `stage`, on `event`, to
/// `next`, asking for `action`.
/// - A file that cannot be read is skipped.
/// - Otherwise the archive directory is listed and, if it holds an archived
///   copy of the file, the newest one is read.
/// - When that copy holds the file's content, nothing is written.
/// - Otherwise the directory is created, the clock read, and the record
///   `{model, code}` written under `{secs}-{micros:06}__{file_name}.json`;
///   only a failure to create the directory or to write stops that.
pub open spec fn step_spec(
    target: ArchiveTarget,
    model: Seq<char>,
    stage: ArchiveStage,
    event: ArchiveEvent,
    next: ArchiveStage,
    action: ArchiveAction,
) -> bool {
    match stage {
        ArchiveStage::ReadingSource => match event {
            ArchiveEvent::SourceRead { contents } => match contents {
                None => finishes(next, action, ArchiveOutcome::Unreadable),
                Some(code) => next matches ArchiveStage::Listing { code: c } && c@ == code@
                    && action is ListArchive,
            },
            _ => false,
        },
        ArchiveStage::Listing { code } => match event {
            ArchiveEvent::ArchiveListed { names } => match newest_archive_index(
                views_of(names@),
                target.file_name@,
            ) {
                Some(i) => {
                    &&& next matches ArchiveStage::ReadingArchived { code: c } && c@ == code@
                    &&& action matches ArchiveAction::ReadArchived { name } && name@ == names@[i]@
                },
                None => next matches ArchiveStage::CreatingDir { code: c } && c@ == code@
                    && action is CreateDir,
            },
            _ => false,
        },
        ArchiveStage::ReadingArchived { code } => match event {
            ArchiveEvent::ArchivedRead { contents } => if newest_code(contents) == Some(code@) {
                finishes(next, action, ArchiveOutcome::Unchanged)
            } else {
                next matches ArchiveStage::CreatingDir { code: c } && c@ == code@
                    && action is CreateDir
            },
            _ => false,
        },
        ArchiveStage::CreatingDir { code } => match event {
            ArchiveEvent::DirCreated { ok } => if ok {
                next matches ArchiveStage::ReadingClock { code: c } && c@ == code@
                    && action is ReadClock
            } else {
                finishes(next, action, ArchiveOutcome::DirFailed)
            },
            _ => false,
        },
        ArchiveStage::ReadingClock { code } => match event {
            ArchiveEvent::ClockRead { secs, micros } => {
                &&& next is Writing
                &&& action matches ArchiveAction::Write { name, contents }
                    && name@ == archive_name(secs as nat, micros as nat, target.file_name@)
                    && contents@ == record_text(model, code@)
                    && record_code(contents@) == Some(code@)
                    && record_model(contents@) == Some(model)
            },
            _ => false,
        },
        ArchiveStage::Writing => match event {
            ArchiveEvent::Written { ok } => if ok {
                finishes(next, action, ArchiveOutcome::Archived)
            } else {
                finishes(next, action, ArchiveOutcome::WriteFailed)
            },
            _ => false,
        },
        ArchiveStage::Finished { .. } => false,
    }
}

/// The first step: read the file.
pub fn begin() -> (r: (ArchiveStage, ArchiveAction))
    ensures
        r.0 is ReadingSource,
        r.1 is ReadSource,
{
    (ArchiveStage::ReadingSource, ArchiveAction::ReadSource)
}

fn finish(outcome: ArchiveOutcome) -> (r: (ArchiveStage, ArchiveAction))
    ensures
        finishes(r.0, r.1, outcome),
{
    (ArchiveStage::Finished { outcome }, ArchiveAction::Finish { outcome })
}

/// Tells whether `event` answers the action that `stage` was entered with.
pub fn expects(stage: &ArchiveStage, event: &ArchiveEvent) -> (r: bool)
    ensures
        r == awaits(*stage, *event),
{
    match stage {
        ArchiveStage::ReadingSource => matches!(event, ArchiveEvent::SourceRead { .. }),
        ArchiveStage::Listing { .. } => matches!(event, ArchiveEvent::ArchiveListed { .. }),
        ArchiveStage::ReadingArchived { .. } => matches!(event, ArchiveEvent::ArchivedRead { .. }),
        ArchiveStage::CreatingDir { .. } => matches!(event, ArchiveEvent::DirCreated { .. }),
        ArchiveStage::ReadingClock { .. } => matches!(event, ArchiveEvent::ClockRead { .. }),
        ArchiveStage::Writing => matches!(event, ArchiveEvent::Written { .. }),
        ArchiveStage::Finished { .. } => false,
    }
}

/// One step of archiving `target` for `model` (the model's label).
pub fn step(target: &ArchiveTarget, model: &str, stage: ArchiveStage, event: ArchiveEvent) -> (r: (
    ArchiveStage,
    ArchiveAction,
))
    requires
        awaits(stage, event),
    ensures
        step_spec(*target, model@, stage, event, r.0, r.1),
        stage_rank(r.0) > stage_rank(stage),
        (r.1 is Finish) == (r.0 is Finished),
{
    match stage {
        ArchiveStage::ReadingSource => match event {
            ArchiveEvent::SourceRead { contents } => match contents {
                None => finish(ArchiveOutcome::Unreadable),
                Some(code) => (ArchiveStage::Listing { code }, ArchiveAction::ListArchive),
            },
            _ => unreached(),
        },
        ArchiveStage::Listing { code } => match event {
            ArchiveEvent::ArchiveListed { names } => {
                match newest_archive(&names, target.file_name.as_str()) {
                    Some(i) => {
                        let name = names[i].clone();
                        (ArchiveStage::ReadingArchived { code }, ArchiveAction::ReadArchived { name })
                    },
                    None => (ArchiveStage::CreatingDir { code }, ArchiveAction::CreateDir),
                }
            },
            _ => unreached(),
        },
        ArchiveStage::ReadingArchived { code } => match event {
            ArchiveEvent::ArchivedRead { contents } => {
                let newest = match &contents {
                    Some(text) => archived_code(text.as_str()),
                    None => None,
                };
                let same = match &newest {
                    Some(c) => *c == code,
                    None => false,
                };
                if same {
                    finish(ArchiveOutcome::Unchanged)
                } else {
                    (ArchiveStage::CreatingDir { code }, ArchiveAction::CreateDir)
                }
            },
            _ => unreached(),
        },
        ArchiveStage::CreatingDir { code } => match event {
            ArchiveEvent::DirCreated { ok } => {
                if ok {
                    (ArchiveStage::ReadingClock { code }, ArchiveAction::ReadClock)
                } else {
                    finish(ArchiveOutcome::DirFailed)
                }
            },
            _ => unreached(),
        },
        ArchiveStage::ReadingClock { code } => match event {
            ArchiveEvent::ClockRead { secs, micros } => {
                let name = archive_file_name(secs, micros, target.file_name.as_str());
                let contents = match encode_record(model, code.as_str()) {
                    Some(contents) => contents,
                    None => unreached(),
                };
                (ArchiveStage::Writing, ArchiveAction::Write { name, contents })
            },
            _ => unreached(),
        },
        ArchiveStage::Writing => match event {
            ArchiveEvent::Written { ok } => {
                if ok {
                    finish(ArchiveOutcome::Archived)
                } else {
                    finish(ArchiveOutcome::WriteFailed)
                }
            },
            _ => unreached(),
        },
        ArchiveStage::Finished { .. } => unreached(),
    }
}


/// The copy that a run archived is found again by a later run over the same
/// file: listed in the archive directory with a later timestamp than every
/// other copy of that file, it is the newest, it is the one read back, and
/// when the file's content is still what that copy holds, nothing is
/// written.
pub proof fn law_unchanged_file_is_not_archived_again(
    target: ArchiveTarget,
    model: Seq<char>,
    code: String,
    names: Vec<String>,
    i: int,
    secs: u64,
    micros: u32,
    written: String,
    next1: ArchiveStage,
    action1: ArchiveAction,
    next2: ArchiveStage,
    action2: ArchiveAction,
)
    requires
        0 <= i < names@.len(),
        names@[i]@ == archive_name(secs as nat, micros as nat, target.file_name@),
        forall|j: int|
            0 <= j < names@.len() && j != i && (#[trigger] archive_stamp_of(
                names@[j]@,
                target.file_name@,
            )) is Some ==> stamp_lt(
                archive_stamp_of(names@[j]@, target.file_name@)->0,
                (secs, micros as u64),
            ),
        record_code(written@) == Some(code@),
        step_spec(
            target,
            model,
            ArchiveStage::Listing { code },
            ArchiveEvent::ArchiveListed { names },
            next1,
            action1,
        ),
        step_spec(target, model, next1, ArchiveEvent::ArchivedRead { contents: Some(written) }, next2, action2),
    ensures
        action1 matches ArchiveAction::ReadArchived { name } && name@ == names@[i]@,
        finishes(next2, action2, ArchiveOutcome::Unchanged),
{
    let all = views_of(names@);
    let f = target.file_name@;
    law_archive_name_round_trip(secs, micros as u64, f);
    assert(all[i] == names@[i]@);
    assert forall|j: int|
        0 <= j < all.len() && #[trigger] archive_stamp_of(all[j], f) is Some implies {
            &&& (j < i ==> !stamp_lt(archive_stamp_of(all[i], f)->0, archive_stamp_of(all[j], f)->0))
            &&& (j > i ==> stamp_lt(archive_stamp_of(all[j], f)->0, archive_stamp_of(all[i], f)->0))
        } by {
        assert(all[j] == names@[j]@);
        if j != i {
            assert(archive_stamp_of(names@[j]@, f) is Some);
        }
    }
    assert(is_newest_archive(all, f, i));
    let c = choose|k: int| is_newest_archive(all, f, k);
    lemma_newest_archive_unique(all, f, i, c);
    assert(newest_archive_index(all, f) == Some(i));
}

/// When the newest archived copy holds other content than the file (the file
/// changed, or went back to an earlier content), or there is none that can be
/// read, the file is archived again: the next action creates the directory.
pub proof fn law_changed_content_is_archived(
    target: ArchiveTarget,
    model: Seq<char>,
    code: String,
    contents: Option<String>,
    next: ArchiveStage,
    action: ArchiveAction,
)
    requires
        newest_code(contents) != Some(code@),
        step_spec(
            target,
            model,
            ArchiveStage::ReadingArchived { code },
            ArchiveEvent::ArchivedRead { contents },
            next,
            action,
        ),
    ensures
        next matches ArchiveStage::CreatingDir { code: c } && c@ == code@,
        action is CreateDir,
{
}

/// Every copy that is written is an archived copy of exactly its own file,
/// carrying the time at which it was written, and holds the file's content
/// and the model's label.
pub proof fn law_written_copy_is_found_by_its_name(
    target: ArchiveTarget,
    model: Seq<char>,
    code: String,
    secs: u64,
    micros: u32,
    next: ArchiveStage,
    action: ArchiveAction,
)
    requires
        step_spec(
            target,
            model,
            ArchiveStage::ReadingClock { code },
            ArchiveEvent::ClockRead { secs, micros },
            next,
            action,
        ),
    ensures
        action matches ArchiveAction::Write { name, contents } && archive_stamp_of(
            name@,
            target.file_name@,
        ) == Some((secs, micros as u64)) && record_code(contents@) == Some(code@) && record_model(
            contents@,
        ) == Some(model),
{
    law_archive_name_round_trip(secs, micros as u64, target.file_name@);
}


/// A copy written at a later time than every archived copy of the file that
/// was listed replaces none of them: earlier versions stay alongside the new
/// one.
pub proof fn law_later_copy_keeps_earlier_ones(
    target: ArchiveTarget,
    model: Seq<char>,
    code: String,
    names: Seq<Seq<char>>,
    secs: u64,
    micros: u32,
    next: ArchiveStage,
    action: ArchiveAction,
)
    requires
        forall|j: int|
            0 <= j < names.len() && (#[trigger] archive_stamp_of(names[j], target.file_name@)) is Some
                ==> stamp_lt(
                archive_stamp_of(names[j], target.file_name@)->0,
                (secs, micros as u64),
            ),
        step_spec(
            target,
            model,
            ArchiveStage::ReadingClock { code },
            ArchiveEvent::ClockRead { secs, micros },
            next,
            action,
        ),
    ensures
        action matches ArchiveAction::Write { name, contents } && forall|j: int|
            0 <= j < names.len() ==> names[j] != name@,
{
    law_archive_name_round_trip(secs, micros as u64, target.file_name@);
    let name = action->Write_name@;
    assert forall|j: int| 0 <= j < names.len() implies names[j] != name by {
        if names[j] == name {
            assert(archive_stamp_of(names[j], target.file_name@) == Some((secs, micros as u64)));
        }
    }
}


/// A file whose content differs from its newest archived copy (it changed,
/// or went back to an earlier content), or that has no readable archived
/// copy, is archived again once its directory exists: the copy is written
/// under the time read from the clock, and holds the file's content.
pub proof fn law_changed_content_is_written(
    target: ArchiveTarget,
    model: Seq<char>,
    code: String,
    contents: Option<String>,
    secs: u64,
    micros: u32,
    next1: ArchiveStage,
    action1: ArchiveAction,
    next2: ArchiveStage,
    action2: ArchiveAction,
    next3: ArchiveStage,
    action3: ArchiveAction,
)
    requires
        newest_code(contents) != Some(code@),
        step_spec(
            target,
            model,
            ArchiveStage::ReadingArchived { code },
            ArchiveEvent::ArchivedRead { contents },
            next1,
            action1,
        ),
        step_spec(target, model, next1, ArchiveEvent::DirCreated { ok: true }, next2, action2),
        step_spec(target, model, next2, ArchiveEvent::ClockRead { secs, micros }, next3, action3),
    ensures
        action1 is CreateDir,
        action2 is ReadClock,
        action3 matches ArchiveAction::Write { name, contents: text } && name@ == archive_name(
            secs as nat,
            micros as nat,
            target.file_name@,
        ) && record_code(text@) == Some(code@) && record_model(text@) == Some(model),
{
}


/// Every file that can be read as text goes on to be archived, whatever its
/// content, the empty text included: its content is carried on and the
/// archive directory is listed. Only a file that cannot be read is skipped.
pub proof fn law_readable_file_is_carried_on(
    target: ArchiveTarget,
    model: Seq<char>,
    contents: Option<String>,
    next: ArchiveStage,
    action: ArchiveAction,
)
    requires
        step_spec(
            target,
            model,
            ArchiveStage::ReadingSource,
            ArchiveEvent::SourceRead { contents },
            next,
            action,
        ),
    ensures
        contents matches Some(code) ==> (next matches ArchiveStage::Listing { code: c } && c@
            == code@),
        contents is Some ==> action is ListArchive,
        contents is None ==> next == (ArchiveStage::Finished { outcome: ArchiveOutcome::Unreadable })
            && action == (ArchiveAction::Finish { outcome: ArchiveOutcome::Unreadable }),
{
}

} // verus!
