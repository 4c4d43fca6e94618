//! The chained call protocol and the annotation surface.

use decycle::ast::{Name, Path, TraitDecl};
use decycle::engine::FinalizeArgs;
use decycle::entry::{ArgError, ArgToken, Args};
use decycle::names::{get_crate_identity, get_random, identity_to_u64};
use decycle::payload::{fold_step, ProtocolError};

fn bare(n: Name) -> Path {
    Path { leading_colon: false, segments: vec![n], args: Vec::new() }
}

fn plain_trait(ident: u64) -> TraitDecl {
    TraitDecl { ident: Name::User(ident), params: Vec::new(), items: Vec::new() }
}

#[test]
fn test_payload_round_trip() {
    // Re-emitting the engine's arguments and parsing what was emitted
    // yields the arguments back.
    let args = FinalizeArgs {
        working_list: vec![bare(Name::User(1))],
        traits: vec![plain_trait(2)],
        contents: Vec::new(),
        recurse_level: 7,
        support_infinite_cycle: false,
    };
    let payload = args.to_tokens();
    assert_eq!(payload.identity, b"decycle".to_vec());
    let back = FinalizeArgs::parse(payload).unwrap();
    assert_eq!(back.recurse_level, 7);
    assert!(!back.support_infinite_cycle);
    assert_eq!(back.working_list.len(), 1);
    assert_eq!(back.working_list[0].segments, vec![Name::User(1)]);
    assert_eq!(back.traits.len(), 1);
    assert_eq!(back.traits[0].ident, Name::User(2));
}

#[test]
fn test_fold_step_consumes_front() {
    // A deferred step removes itself from the work list and folds its own
    // declaration in at the front.
    let args = FinalizeArgs {
        working_list: vec![bare(Name::User(1)), bare(Name::User(2)), bare(Name::FinalizeEntry)],
        traits: vec![plain_trait(9)],
        contents: Vec::new(),
        recurse_level: 10,
        support_infinite_cycle: true,
    };
    let payload = args.to_tokens();
    let next = fold_step(payload, plain_trait(5)).unwrap();
    assert_eq!(next.working_list.len(), 2);
    assert_eq!(next.working_list[0].segments, vec![Name::User(2)]);
    assert_eq!(next.traits.len(), 2);
    assert_eq!(next.traits[0].ident, Name::User(5));
    assert_eq!(next.traits[1].ident, Name::User(9));
}

#[test]
fn test_fold_step_needs_next_step() {
    let args = FinalizeArgs {
        working_list: vec![bare(Name::FinalizeEntry)],
        traits: Vec::new(),
        contents: Vec::new(),
        recurse_level: 10,
        support_infinite_cycle: true,
    };
    let payload = args.to_tokens();
    let got = fold_step(payload, plain_trait(5));
    assert!(matches!(got, Err(ProtocolError::MalformedWorkList)));
}

#[test]
fn test_stable_hygiene_suffix() {
    // The hygiene suffix is the deterministic hash of the crate identity.
    let identity = get_crate_identity();
    assert_eq!(identity, b"decycle".to_vec());
    assert_eq!(identity_to_u64(&identity), 0x8909385c15d27adc);
    assert_eq!(get_random(), 0x8909385c15d27adc);
    assert_eq!(get_random(), get_random());
    // FNV-1a basics: the empty input is the offset basis.
    assert_eq!(identity_to_u64(b""), 0xcbf29ce484222325);
}

#[test]
fn test_generated_names_cannot_collide() {
    // A generated identifier is structurally distinct from any user
    // identifier, whatever symbols the user chose.
    let suffix = get_random();
    assert_ne!(Name::Ranked(1, suffix), Name::User(1));
    assert_ne!(Name::RankParam(suffix), Name::User(suffix));
    assert_ne!(Name::Temporal(1, suffix), Name::Ranked(1, suffix));
}

#[test]
fn test_args_parse_accepts_known_keywords() {
    let tokens = vec![
        ArgToken::RecurseLevel(3),
        ArgToken::SupportInfiniteCycle(false),
        ArgToken::RecurseLevel(5),
        ArgToken::Marker(bare(Name::User(4))),
    ];
    let args = Args::parse(tokens).unwrap();
    // the later occurrence of a keyword wins
    assert_eq!(args.recurse_level, Some(5));
    assert_eq!(args.support_infinite_cycle, Some(false));
    assert!(args.marker.is_some());
    assert!(args.decycle.is_none());
    assert!(args.alter_macro_name.is_none());
    assert!(args.allowed_paths.is_none());
}

#[test]
fn test_args_parse_refuses_unknown_keyword() {
    let tokens = vec![ArgToken::RecurseLevel(3), ArgToken::Unknown(77)];
    let got = Args::parse(tokens);
    assert!(matches!(got, Err(ArgError::UnknownArgument)));
}
