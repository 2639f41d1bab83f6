use vstd::prelude::*;
use crate::cli::AddCoversArguments;
use crate::organizer::{AllowedChangeType, Args, ArgsView};

verus! {

/// What a run does for the `add-covers` command: it works through the
/// folder one folder at a time, downloads covers and nothing else, and asks
/// nothing.
pub open spec fn add_covers_run(args: AddCoversArguments, discogs_token: Option<String>) -> ArgsView {
    ArgsView {
        input_paths: seq![args.to@],
        output_path: None,
        allowed_change_types: seq![AllowedChangeType::Covers],
        allow_questions: false,
        chunk_size: Some(1usize),
        discogs_token: discogs_token.deep_view(),
        discogs_release_id: None,
        force_fsync: false,
    }
}

/// The run that the `add-covers` command asks for.
pub fn add_covers(args: AddCoversArguments, discogs_token: Option<String>) -> (r: Args)
    ensures
        r@ == add_covers_run(args, discogs_token),
{
    let input_paths = vec![args.to];
    proof {
        crate::util::views::lemma_deep_view_index(input_paths);
        assert(input_paths.deep_view() =~= seq![args.to@]);
    }
    let allowed_change_types = vec![AllowedChangeType::Covers];
    assert(allowed_change_types@ =~= seq![AllowedChangeType::Covers]);
    Args {
        input_paths,
        output_path: None,
        allowed_change_types,
        allow_questions: false,
        chunk_size: Some(1),
        discogs_token,
        discogs_release_id: None,
        force_fsync: false,
    }
}

} // verus!
