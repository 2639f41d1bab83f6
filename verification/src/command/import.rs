use vstd::prelude::*;
use crate::cli::ImportArgs;
use crate::organizer::{AllowedChangeType, Args, ArgsView};

verus! {

/// What a run does for the `import` command: it makes every kind of change
/// and asks before it does.
pub open spec fn import_run(args: ImportArgs, discogs_token: Option<String>) -> ArgsView {
    ArgsView {
        input_paths: args.from.deep_view(),
        output_path: args.to.deep_view(),
        allowed_change_types: seq![
            AllowedChangeType::MusicFiles,
            AllowedChangeType::Covers,
            AllowedChangeType::SourceCleanup,
            AllowedChangeType::TargetCleanup,
        ],
        allow_questions: true,
        chunk_size: args.chunk_size,
        discogs_token: discogs_token.deep_view(),
        discogs_release_id: args.discogs_release_id.deep_view(),
        force_fsync: args.fsync,
    }
}

/// The run that the `import` command asks for.
pub fn import(args: ImportArgs, discogs_token: Option<String>) -> (r: Args)
    ensures
        r@ == import_run(args, discogs_token),
{
    let allowed_change_types = vec![
        AllowedChangeType::MusicFiles,
        AllowedChangeType::Covers,
        AllowedChangeType::SourceCleanup,
        AllowedChangeType::TargetCleanup,
    ];
    assert(allowed_change_types@ =~= seq![
        AllowedChangeType::MusicFiles,
        AllowedChangeType::Covers,
        AllowedChangeType::SourceCleanup,
        AllowedChangeType::TargetCleanup,
    ]);
    Args {
        input_paths: args.from,
        output_path: args.to,
        allowed_change_types,
        allow_questions: true,
        chunk_size: args.chunk_size,
        discogs_token,
        discogs_release_id: args.discogs_release_id,
        force_fsync: args.fsync,
    }
}

} // verus!
