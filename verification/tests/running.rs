use music_files_organizer::cli::{AddCoversArguments, ImportArgs};
use music_files_organizer::command::add_covers::add_covers;
use music_files_organizer::command::import::import;
use music_files_organizer::music_file::MusicFile;
use music_files_organizer::organizer::changes::{ChangeList, Cleanup, CoverChange, MusicFileChange};
use music_files_organizer::organizer::{
    allows, ancestors, apply_steps, chunk_folders, first_work_step, folders_to_sync, next_work_step,
    nothing_to_do, read_progress, total_bytes_to_transfer, write_progress, AllowedChangeType,
    ApplyStep, Args, Question, WorkStep,
};
use music_files_organizer::tag::Tag;
use music_files_organizer::util::path::FilePath;

fn path(text: &str) -> FilePath {
    FilePath {
        components: text.split('/').filter(|part| !part.is_empty()).map(str::to_string).collect(),
    }
}

fn change<'a>(source: &'a MusicFile, target: &str, length: u64) -> MusicFileChange<'a> {
    MusicFileChange {
        source,
        target: MusicFile { file_path: path(target), tag: Tag::new(), duration: None },
        is_transcode: false,
        source_file_length: length,
        discogs_release: None,
    }
}

fn cover(at: &str) -> CoverChange {
    CoverChange { path: path(at), uri: "https://i/cover.jpeg".to_string() }
}

#[test]
fn import_makes_every_kind_of_change_and_asks() {
    let args = ImportArgs {
        from: vec![path("in/a"), path("in/b")],
        to: Some(path("out")),
        clean_target_folders: true,
        clean_source_folders: false,
        fsync: true,
        chunk_size: Some(3),
        discogs_release_id: Some("[r1]".to_string()),
    };
    assert_eq!(
        import(args, Some("token".to_string())),
        Args {
            input_paths: vec![path("in/a"), path("in/b")],
            output_path: Some(path("out")),
            allowed_change_types: vec![
                AllowedChangeType::MusicFiles,
                AllowedChangeType::Covers,
                AllowedChangeType::SourceCleanup,
                AllowedChangeType::TargetCleanup,
            ],
            allow_questions: true,
            chunk_size: Some(3),
            discogs_token: Some("token".to_string()),
            discogs_release_id: Some("[r1]".to_string()),
            force_fsync: true,
        }
    );
}

#[test]
fn add_covers_only_downloads_covers_and_asks_nothing() {
    assert_eq!(
        add_covers(AddCoversArguments { to: path("music") }, None),
        Args {
            input_paths: vec![path("music")],
            output_path: None,
            allowed_change_types: vec![AllowedChangeType::Covers],
            allow_questions: false,
            chunk_size: Some(1),
            discogs_token: None,
            discogs_release_id: None,
            force_fsync: false,
        }
    );
}

#[test]
fn allowed_kinds_are_looked_up() {
    let allowed = vec![AllowedChangeType::Covers, AllowedChangeType::TargetCleanup];
    assert!(allows(&allowed, AllowedChangeType::Covers));
    assert!(allows(&allowed, AllowedChangeType::TargetCleanup));
    assert!(!allows(&allowed, AllowedChangeType::MusicFiles));
    assert!(!allows(&vec![], AllowedChangeType::SourceCleanup));
}

#[test]
fn plan_is_reviewed_and_edited_as_often_as_wanted() {
    assert_eq!(first_work_step(false), WorkStep::Apply);
    assert_eq!(first_work_step(true), WorkStep::Ask(Question::Review));
    assert_eq!(next_work_step(Question::Review, true), WorkStep::ShowThenAsk(Question::Edit));
    assert_eq!(next_work_step(Question::Review, false), WorkStep::Ask(Question::MakeChanges));
    assert_eq!(next_work_step(Question::Edit, true), WorkStep::EditThenAsk(Question::Review));
    assert_eq!(next_work_step(Question::Edit, false), WorkStep::Ask(Question::MakeChanges));
    assert_eq!(next_work_step(Question::MakeChanges, true), WorkStep::Apply);
    assert_eq!(next_work_step(Question::MakeChanges, false), WorkStep::Skip);
}

#[test]
fn plan_is_carried_out_in_a_fixed_order() {
    let source = MusicFile { file_path: path("in/a.mp3"), tag: Tag::new(), duration: None };
    let changes = ChangeList {
        music_files: vec![change(&source, "out/x/1.mp3", 100), change(&source, "out/y/2.mp3", 250)],
        covers: vec![cover("out/x/cover.jpeg"), cover("out/z/cover.jpeg")],
        cleanups: vec![Cleanup { path: path("in/a.mp3") }],
    };
    assert!(!nothing_to_do(&changes));
    assert_eq!(
        apply_steps(&changes, true),
        vec![
            ApplyStep::WriteMusicFiles { total_bytes: 350 },
            ApplyStep::DownloadCovers { count: 2 },
            ApplyStep::Cleanup,
            ApplyStep::Fsync { folders: vec![path("out/x"), path("out/y"), path("out/z")] },
        ]
    );
    assert_eq!(folders_to_sync(&changes), vec![path("out/x"), path("out/y"), path("out/z")]);
    assert_eq!(apply_steps(&changes, false).len(), 3);
}

#[test]
fn parts_with_nothing_to_do_are_left_out() {
    let source = MusicFile { file_path: path("in/a.mp3"), tag: Tag::new(), duration: None };
    let empty = ChangeList { music_files: vec![], covers: vec![], cleanups: vec![] };
    assert!(nothing_to_do(&empty));
    assert_eq!(apply_steps(&empty, false), vec![]);
    assert_eq!(apply_steps(&empty, true), vec![ApplyStep::Fsync { folders: vec![] }]);
    let covers_only = ChangeList { music_files: vec![], covers: vec![cover("a/cover.png")], cleanups: vec![] };
    assert!(!nothing_to_do(&covers_only));
    assert_eq!(apply_steps(&covers_only, false), vec![ApplyStep::DownloadCovers { count: 1 }]);
    let cleanups_only = ChangeList { music_files: vec![], covers: vec![], cleanups: vec![Cleanup { path: path("x") }] };
    assert!(!nothing_to_do(&cleanups_only));
    assert_eq!(apply_steps(&cleanups_only, false), vec![ApplyStep::Cleanup]);
    let files_only = ChangeList { music_files: vec![change(&source, "o/1.mp3", 1)], covers: vec![], cleanups: vec![] };
    assert!(!nothing_to_do(&files_only));
    assert_eq!(apply_steps(&files_only, false), vec![ApplyStep::WriteMusicFiles { total_bytes: 1 }]);
}

#[test]
fn bytes_to_transfer_are_added_up() {
    let source = MusicFile { file_path: path("in/a.mp3"), tag: Tag::new(), duration: None };
    assert_eq!(total_bytes_to_transfer(&vec![]), 0);
    assert_eq!(total_bytes_to_transfer(&vec![change(&source, "a", 5), change(&source, "b", 7)]), 12);
    assert_eq!(
        total_bytes_to_transfer(&vec![change(&source, "a", u64::MAX), change(&source, "b", 7)]),
        u64::MAX
    );
}

#[test]
fn progress_is_half_for_reading_and_half_for_writing() {
    assert_eq!(read_progress(1000), 500);
    assert_eq!(read_progress(1), 0);
    assert_eq!(write_progress(1000, 4000, 4000), 500);
    assert_eq!(write_progress(1000, 4000, 2000), 1000);
    assert_eq!(write_progress(1000, 4000, 8000), 250);
    assert_eq!(write_progress(3, 5, 7), 1);
    assert_eq!(write_progress(1000, 4000, 0), 0);
    assert_eq!(write_progress(u64::MAX, u64::MAX, 1), (u64::MAX as u128) * (u64::MAX as u128) / 2);
}

#[test]
fn folders_are_worked_on_in_chunks() {
    let folders = vec![path("a"), path("b"), path("c"), path("d"), path("e")];
    assert_eq!(
        chunk_folders(&folders, Some(2)),
        vec![vec![path("a"), path("b")], vec![path("c"), path("d")], vec![path("e")]]
    );
    assert_eq!(chunk_folders(&folders, Some(5)), vec![folders.clone()]);
    assert_eq!(chunk_folders(&folders, Some(usize::MAX)), vec![folders.clone()]);
    assert_eq!(chunk_folders(&folders, None), vec![folders.clone()]);
    assert_eq!(chunk_folders(&folders, Some(1)).len(), 5);
    assert_eq!(chunk_folders(&vec![], None), Vec::<Vec<FilePath>>::new());
    assert_eq!(chunk_folders(&vec![], Some(3)), Vec::<Vec<FilePath>>::new());
}

#[test]
fn folders_around_a_path_are_listed_from_the_nearest() {
    assert_eq!(ancestors(&path("a/b/c/d.mp3")), vec![path("a/b/c"), path("a/b"), path("a")]);
    assert_eq!(ancestors(&path("d.mp3")), vec![]);
    assert_eq!(ancestors(&path("")), vec![]);
}
