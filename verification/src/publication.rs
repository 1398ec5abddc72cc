//! The steps in which the public directory is replaced, and why it is never lost.
//!
//! New files are put together in a stage beside the public directory. The public directory is then
//! moved to a backup, the stage is moved to its place, and the backup is removed. Whoever takes
//! the steps performs the action of each phase and reports what came of it.

use vstd::prelude::*;

verus! {

/// A file of the public directory.
#[derive(Clone, Copy, Debug, PartialEq, Eq, Structural)]
pub enum PublicFile {
    State,
    Calendar,
    Index,
}

/// What a publication failed at.
#[derive(Clone, Copy, Debug, PartialEq, Eq, Structural)]
pub enum Failure {
    ClearingStage,
    StaleBackup,
    MakingStage,
    Writing { file: PublicFile },
    BackingUp,
    Installing,
    Restoring,
    DroppingBackup,
}

/// Where a publication stands, and so what is to be done next.
#[derive(Clone, Copy, Debug, PartialEq, Eq, Structural)]
pub enum Phase {
    /// Look whether a stage is there.
    LookForStage,
    /// Remove the stage and all in it.
    ClearStage,
    /// Look whether a backup is there.
    LookForBackup,
    /// Make an empty stage.
    MakeStage,
    /// Write a file into the stage.
    Write { file: PublicFile },
    /// Look whether the public directory is there.
    LookForPublic,
    /// Move the public directory to the backup.
    BackUp,
    /// Move the stage to the public directory.
    Install { replacing: bool },
    /// Move the backup to the public directory.
    Restore,
    /// Remove the backup and all in it.
    DropBackup,
    /// Nothing is left to do.
    Published,
    /// Nothing can be done.
    Stopped { failure: Failure },
}

/// What came of the action of a phase.
#[derive(Clone, Copy, Debug, PartialEq, Eq, Structural)]
pub enum Report {
    /// What was looked for is there.
    There,
    /// What was looked for is not there.
    Missing,
    /// The action was performed.
    Done,
    /// The action failed.
    Failed,
}

/// The phase that a publication starts in.
pub open spec fn first_phase() -> Phase {
    Phase::LookForStage
}

/// What an action leads to: a phase where it was performed, a failure where it was not.
pub open spec fn done_or(report: Report, next: Phase, failure: Failure) -> Phase {
    if report == Report::Done {
        next
    } else {
        Phase::Stopped { failure }
    }
}

/// The phase after a phase, given what came of its action.
pub open spec fn phase_after(phase: Phase, report: Report) -> Phase {
    match phase {
        Phase::LookForStage => if report == Report::There {
            Phase::ClearStage
        } else {
            Phase::LookForBackup
        },
        Phase::ClearStage => done_or(report, Phase::LookForBackup, Failure::ClearingStage),
        Phase::LookForBackup => if report == Report::There {
            Phase::Stopped { failure: Failure::StaleBackup }
        } else {
            Phase::MakeStage
        },
        Phase::MakeStage => done_or(
            report,
            Phase::Write { file: PublicFile::State },
            Failure::MakingStage,
        ),
        Phase::Write { file } => done_or(
            report,
            match file {
                PublicFile::State => Phase::Write { file: PublicFile::Calendar },
                PublicFile::Calendar => Phase::Write { file: PublicFile::Index },
                PublicFile::Index => Phase::LookForPublic,
            },
            Failure::Writing { file },
        ),
        Phase::LookForPublic => if report == Report::There {
            Phase::BackUp
        } else {
            Phase::Install { replacing: false }
        },
        Phase::BackUp => done_or(report, Phase::Install { replacing: true }, Failure::BackingUp),
        Phase::Install { replacing } => match (report, replacing) {
            (Report::Done, true) => Phase::DropBackup,
            (Report::Done, false) => Phase::Published,
            (_, true) => Phase::Restore,
            (_, false) => Phase::Stopped { failure: Failure::Installing },
        },
        Phase::Restore => done_or(
            report,
            Phase::Stopped { failure: Failure::Installing },
            Failure::Restoring,
        ),
        Phase::DropBackup => done_or(report, Phase::Published, Failure::DroppingBackup),
        Phase::Published | Phase::Stopped { .. } => phase,
    }
}

/// The phase that a publication starts in.
pub fn start() -> (r: Phase)
    ensures
        r == first_phase(),
{
    Phase::LookForStage
}

/// A phase where an action was performed, a failure where it was not.
fn step(report: Report, next: Phase, failure: Failure) -> (r: Phase)
    ensures
        r == done_or(report, next, failure),
{
    match report {
        Report::Done => next,
        _ => Phase::Stopped { failure },
    }
}

/// Decides what is to be done next, from what came of the action of a phase.
pub fn advance(phase: Phase, report: Report) -> (r: Phase)
    ensures
        r == phase_after(phase, report),
{
    match phase {
        Phase::LookForStage => match report {
            Report::There => Phase::ClearStage,
            _ => Phase::LookForBackup,
        },
        Phase::ClearStage => step(report, Phase::LookForBackup, Failure::ClearingStage),
        Phase::LookForBackup => match report {
            Report::There => Phase::Stopped { failure: Failure::StaleBackup },
            _ => Phase::MakeStage,
        },
        Phase::MakeStage => step(
            report,
            Phase::Write { file: PublicFile::State },
            Failure::MakingStage,
        ),
        Phase::Write { file } => {
            let next: Phase = match file {
                PublicFile::State => Phase::Write { file: PublicFile::Calendar },
                PublicFile::Calendar => Phase::Write { file: PublicFile::Index },
                PublicFile::Index => Phase::LookForPublic,
            };
            step(report, next, Failure::Writing { file })
        },
        Phase::LookForPublic => match report {
            Report::There => Phase::BackUp,
            _ => Phase::Install { replacing: false },
        },
        Phase::BackUp => step(report, Phase::Install { replacing: true }, Failure::BackingUp),
        Phase::Install { replacing } => match (report, replacing) {
            (Report::Done, true) => Phase::DropBackup,
            (Report::Done, false) => Phase::Published,
            (_, true) => Phase::Restore,
            (_, false) => Phase::Stopped { failure: Failure::Installing },
        },
        Phase::Restore => step(
            report,
            Phase::Stopped { failure: Failure::Installing },
            Failure::Restoring,
        ),
        Phase::DropBackup => step(report, Phase::Published, Failure::DroppingBackup),
        Phase::Published => phase,
        Phase::Stopped { .. } => phase,
    }
}

/// What a directory holds: new files with their texts, or the old contents, or anything.
pub enum Contents {
    /// What was public before.
    Before,
    /// These new files with these texts, and nothing else.
    New { files: Map<PublicFile, Seq<char>> },
    /// Nothing is known of it.
    Unknown,
}

/// The three directories: each is missing or holds something.
pub struct Places {
    pub public: Option<Contents>,
    pub stage: Option<Contents>,
    pub backup: Option<Contents>,
}

/// All new files.
pub open spec fn all_files() -> Set<PublicFile> {
    set![PublicFile::State, PublicFile::Calendar, PublicFile::Index]
}

/// The stage with a file more in it.
pub open spec fn with_file(stage: Option<Contents>, file: PublicFile, text: Seq<char>) -> Option<
    Contents,
> {
    match stage {
        Some(Contents::New { files }) => Some(Contents::New { files: files.insert(file, text) }),
        _ => Some(Contents::Unknown),
    }
}

/// Whether the action of a phase can lead from `before` to `after` with this report, where `texts`
/// are to be published. Looking
/// changes nothing and tells the truth. A move is made whole or not at all. An action on the stage
/// that fails can leave anything in it, and so can a removal of the backup in that.
pub open spec fn may_happen(
    phase: Phase,
    report: Report,
    texts: Map<PublicFile, Seq<char>>,
    before: Places,
    after: Places,
) -> bool {
    match phase {
        Phase::LookForStage => after == before && (report == if before.stage is Some {
            Report::There
        } else {
            Report::Missing
        }),
        Phase::LookForBackup => after == before && (report == if before.backup is Some {
            Report::There
        } else {
            Report::Missing
        }),
        Phase::LookForPublic => after == before && (report == if before.public is Some {
            Report::There
        } else {
            Report::Missing
        }),
        Phase::ClearStage => {
            ||| report == Report::Done && after == (Places { stage: None, ..before })
            ||| report == Report::Failed && after == (Places { stage: after.stage, ..before })
        },
        Phase::MakeStage => {
            ||| report == Report::Done && after == (Places {
                stage: Some(Contents::New { files: Map::empty() }),
                ..before
            })
            ||| report == Report::Failed && after == (Places { stage: after.stage, ..before })
        },
        Phase::Write { file } => {
            ||| report == Report::Done && after == (Places {
                stage: with_file(before.stage, file, texts[file]),
                ..before
            })
            ||| report == Report::Failed && after == (Places { stage: after.stage, ..before })
        },
        Phase::BackUp => {
            ||| report == Report::Done && after == (Places {
                public: None,
                backup: before.public,
                ..before
            })
            ||| report == Report::Failed && after == before
        },
        Phase::Install { .. } => {
            ||| report == Report::Done && after == (Places {
                public: before.stage,
                stage: None,
                ..before
            })
            ||| report == Report::Failed && after == before
        },
        Phase::Restore => {
            ||| report == Report::Done && after == (Places {
                public: before.backup,
                backup: None,
                ..before
            })
            ||| report == Report::Failed && after == before
        },
        Phase::DropBackup => {
            ||| report == Report::Done && after == (Places { backup: None, ..before })
            ||| report == Report::Failed && after == (Places { backup: after.backup, ..before })
        },
        Phase::Published | Phase::Stopped { .. } => after == before,
    }
}

/// How the directories can stand in a phase, where `public` was public at the start and `texts` are
/// to be published.
pub open spec fn can_stand(
    phase: Phase,
    public: Option<Contents>,
    texts: Map<PublicFile, Seq<char>>,
    places: Places,
) -> bool {
    let untouched = places.public == public;
    let moved = places.public is None && places.backup == public && public is Some;
    let installed = places.public == Some(Contents::New { files: texts });
    match phase {
        Phase::LookForStage | Phase::ClearStage => untouched,
        Phase::LookForBackup => untouched && places.stage is None,
        Phase::MakeStage => untouched && places.stage is None && places.backup is None,
        Phase::Write { file } => {
            &&& untouched
            &&& places.backup is None
            &&& places.stage == Some(
                Contents::New {
                    files: texts.restrict(
                        match file {
                            PublicFile::State => Set::empty(),
                            PublicFile::Calendar => set![PublicFile::State],
                            PublicFile::Index => set![PublicFile::State, PublicFile::Calendar],
                        },
                    ),
                },
            )
        },
        Phase::LookForPublic => {
            &&& untouched
            &&& places.backup is None
            &&& places.stage == Some(Contents::New { files: texts })
        },
        Phase::BackUp => {
            &&& untouched
            &&& public is Some
            &&& places.backup is None
            &&& places.stage == Some(Contents::New { files: texts })
        },
        Phase::Install { replacing } => {
            &&& if replacing {
                moved
            } else {
                untouched && public is None && places.backup is None
            }
            &&& places.stage == Some(Contents::New { files: texts })
        },
        Phase::Restore => moved,
        Phase::DropBackup => {
            &&& installed
            &&& places.stage is None
            &&& places.backup == public
            &&& public is Some
        },
        Phase::Published => installed && places.backup is None && places.stage is None,
        Phase::Stopped { failure } => match failure {
            Failure::Restoring => moved,
            Failure::DroppingBackup => installed,
            _ => untouched,
        },
    }
}

/// Whatever is done next and whatever comes of it, the directories stand as the phase says.
pub proof fn law_every_step_keeps_standing(
    phase: Phase,
    report: Report,
    public: Option<Contents>,
    texts: Map<PublicFile, Seq<char>>,
    before: Places,
    after: Places,
)
    requires
        texts.dom() == all_files(),
        can_stand(phase, public, texts, before),
        may_happen(phase, report, texts, before, after),
    ensures
        can_stand(phase_after(phase, report), public, texts, after),
{
    let one = set![PublicFile::State];
    let two = set![PublicFile::State, PublicFile::Calendar];
    match phase {
        Phase::MakeStage => {
            assert(texts.restrict(Set::empty()) =~= Map::empty());
        },
        Phase::Write { file } => {
            match file {
                PublicFile::State => {
                    assert(texts.restrict(Set::empty()).insert(file, texts[file])
                        =~= texts.restrict(one));
                },
                PublicFile::Calendar => {
                    assert(texts.restrict(one).insert(file, texts[file]) =~= texts.restrict(two));
                },
                PublicFile::Index => {
                    assert(texts.restrict(two).insert(file, texts[file]) =~= texts);
                },
            }
        },
        _ => {},
    }
}

/// Whatever is public at the start, the first phase stands.
pub proof fn law_start_stands(texts: Map<PublicFile, Seq<char>>, places: Places)
    ensures
        can_stand(first_phase(), places.public, texts, places),
{
}

/// The last publication is never lost, and a half-made one is never seen: in every phase the
/// public directory is as it was, or holds all new files, or is missing while the backup holds
/// what was public.
pub proof fn law_nothing_public_is_lost(
    phase: Phase,
    public: Option<Contents>,
    texts: Map<PublicFile, Seq<char>>,
    places: Places,
)
    requires
        can_stand(phase, public, texts, places),
    ensures
        places.public == public || places.public == Some(Contents::New { files: texts }) || (
        places.public is None && places.backup == public),
        phase == Phase::Published ==> places.public == Some(Contents::New { files: texts })
            && places.backup is None && places.stage is None,
        phase matches Phase::Stopped { failure } ==> failure == Failure::Restoring || failure
            == Failure::DroppingBackup || places.public == public,
{
}

/// The phase that a publication comes to with these reports.
pub open spec fn phase_with(reports: Seq<Report>) -> Phase
    decreases reports.len(),
{
    if reports.len() == 0 {
        first_phase()
    } else {
        phase_after(phase_with(reports.drop_last()), reports.last())
    }
}

/// Whether the directories can change in this way while a publication of texts gets these reports.
pub open spec fn is_run(
    texts: Map<PublicFile, Seq<char>>,
    reports: Seq<Report>,
    places: Seq<Places>,
) -> bool {
    &&& places.len() == reports.len() + 1
    &&& forall|k: int|
        #![trigger reports[k]]
        0 <= k < reports.len() ==> may_happen(
            phase_with(reports.take(k)),
            reports[k],
            texts,
            places[k],
            places[k + 1],
        )
}

/// Whatever comes of the steps of a publication, the directories stand as its phase says.
pub proof fn law_publication_stands(
    texts: Map<PublicFile, Seq<char>>,
    reports: Seq<Report>,
    places: Seq<Places>,
)
    requires
        texts.dom() == all_files(),
        is_run(texts, reports, places),
    ensures
        can_stand(phase_with(reports), places[0].public, texts, places.last()),
    decreases reports.len(),
{
    if reports.len() > 0 {
        let last = reports.len() - 1;
        let before = reports.drop_last();
        assert(before =~= reports.take(last));
        assert(is_run(texts, before, places.drop_last())) by {
            assert forall|k: int|
                #![trigger before[k]]
                0 <= k < before.len() implies may_happen(
                phase_with(before.take(k)),
                before[k],
                texts,
                places.drop_last()[k],
                places.drop_last()[k + 1],
            ) by {
                assert(before.take(k) =~= reports.take(k));
                assert(before[k] == reports[k]);
            }
        }
        law_publication_stands(texts, before, places.drop_last());
        assert(reports[last] == reports.last());
        law_every_step_keeps_standing(
            phase_with(before),
            reports.last(),
            places[0].public,
            texts,
            places[last],
            places[last + 1],
        );
    }
}

/// A publication that ends well leaves the new files with their texts and nothing else in the
/// public directory, and neither a stage nor a backup.
pub proof fn law_publication_leaves_new_files(
    texts: Map<PublicFile, Seq<char>>,
    reports: Seq<Report>,
    places: Seq<Places>,
)
    requires
        texts.dom() == all_files(),
        is_run(texts, reports, places),
        phase_with(reports) == Phase::Published,
    ensures
        places.last().public == Some(Contents::New { files: texts }),
        places.last().stage is None,
        places.last().backup is None,
{
    law_publication_stands(texts, reports, places);
}

/// How many phases are left at most.
pub open spec fn phases_left(phase: Phase) -> nat {
    match phase {
        Phase::LookForStage => 11,
        Phase::ClearStage => 10,
        Phase::LookForBackup => 9,
        Phase::MakeStage => 8,
        Phase::Write { file } => match file {
            PublicFile::State => 7,
            PublicFile::Calendar => 6,
            PublicFile::Index => 5,
        },
        Phase::LookForPublic => 4,
        Phase::BackUp => 3,
        Phase::Install { .. } => 2,
        Phase::Restore | Phase::DropBackup => 1,
        Phase::Published | Phase::Stopped { .. } => 0,
    }
}

/// A publication comes to an end: each step leaves fewer phases, until it is published or stopped.
pub proof fn law_publication_ends(phase: Phase, report: Report)
    ensures
        phases_left(phase) > 0 ==> phases_left(phase_after(phase, report)) < phases_left(phase),
        phases_left(phase) == 0 <==> phase is Published || phase is Stopped,
{
}

/// A publication stops only where an action fails, or where a backup is found that nobody
/// removed. A failure to install is followed by a restoration where something was public.
pub proof fn law_only_failures_stop(phase: Phase, report: Report)
    requires
        !(phase is Stopped),
    ensures
        phase == Phase::LookForBackup ==> (phase_after(phase, report) is Stopped <==> report
            == Report::There),
        phase == Phase::LookForStage || phase == Phase::LookForPublic ==> !(phase_after(
            phase,
            report,
        ) is Stopped),
        phase == (Phase::Install { replacing: true }) && report == Report::Failed ==> phase_after(
            phase,
            report,
        ) == Phase::Restore,
        report == Report::Done && phase != Phase::Restore ==> !(phase_after(phase, report) is Stopped),
{
}

/// Where nothing fails and no backup is in the way, a publication goes on to its end: each step
/// that is performed leads on, and once it is published it stays so.
pub proof fn law_good_steps_lead_on(phase: Phase, report: Report)
    requires
        match phase {
            Phase::LookForStage | Phase::LookForPublic => report == Report::There || report
                == Report::Missing,
            Phase::LookForBackup => report == Report::Missing,
            Phase::Restore | Phase::Stopped { .. } => false,
            _ => report == Report::Done,
        },
    ensures
        match phase_after(phase, report) {
            Phase::Restore | Phase::Stopped { .. } => false,
            _ => true,
        },
        phase != Phase::Published ==> phases_left(phase_after(phase, report)) < phases_left(phase),
        phase == Phase::Published ==> phase_after(phase, report) == Phase::Published,
{
}

/// A failure is told by what was being done.
pub proof fn law_failures_are_told(phase: Phase)
    ensures
        phase == Phase::ClearStage ==> phase_after(phase, Report::Failed) == (Phase::Stopped {
            failure: Failure::ClearingStage,
        }),
        phase == Phase::MakeStage ==> phase_after(phase, Report::Failed) == (Phase::Stopped {
            failure: Failure::MakingStage,
        }),
        phase matches Phase::Write { file } ==> phase_after(phase, Report::Failed) == (
        Phase::Stopped { failure: Failure::Writing { file } }),
        phase == Phase::BackUp ==> phase_after(phase, Report::Failed) == (Phase::Stopped {
            failure: Failure::BackingUp,
        }),
        phase == (Phase::Install { replacing: false }) ==> phase_after(phase, Report::Failed) == (
        Phase::Stopped { failure: Failure::Installing }),
        phase == Phase::Restore ==> phase_after(phase, Report::Failed) == (Phase::Stopped {
            failure: Failure::Restoring,
        }) && phase_after(phase, Report::Done) == (Phase::Stopped { failure: Failure::Installing }),
        phase == Phase::DropBackup ==> phase_after(phase, Report::Failed) == (Phase::Stopped {
            failure: Failure::DroppingBackup,
        }),
{
}

} // verus!
