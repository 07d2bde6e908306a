use lib::command::Context;
use lib::encoder::{encoder_step, EncoderAction};
use lib::models::identifier_from_reading;

#[test]
fn identifiers_from_clock_readings() {
    assert_eq!(identifier_from_reading(Some(255)), "ff");
    assert_eq!(identifier_from_reading(Some(0)), "0");
    assert_eq!(identifier_from_reading(None), "0");
    let a = identifier_from_reading(Some(1_700_000_000_000_000_000));
    let b = identifier_from_reading(Some(1_700_000_000_000_000_001));
    assert_ne!(a, b);
    assert!(u128::from_str_radix(&a, 16).unwrap() < u128::from_str_radix(&b, 16).unwrap());
}

#[test]
fn encoder_steps() {
    let mut ctx = Context::new();
    assert!(matches!(encoder_step(&mut ctx, ""), EncoderAction::Nothing));
    assert!(matches!(encoder_step(&mut ctx, "/help"), EncoderAction::Help));
    assert!(matches!(encoder_step(&mut ctx, "/dance"), EncoderAction::ParseError(e) if e == "Unknown command"));
    assert!(matches!(encoder_step(&mut ctx, "/create x"), EncoderAction::CannotEncode));
    assert!(matches!(encoder_step(&mut ctx, "/create n d"), EncoderAction::Encoded(e) if e == "CREATE_TEAM|n|d\n"));
    assert!(matches!(encoder_step(&mut ctx, "/use t c"), EncoderAction::ContextUpdated));
    assert_eq!(ctx.team_uuid.as_deref(), Some("t"));
    assert_eq!(ctx.channel_uuid.as_deref(), Some("c"));
    assert_eq!(ctx.thread_uuid, None);
    assert!(matches!(encoder_step(&mut ctx, "/list"), EncoderAction::Encoded(e) if e == "LIST_THREADS|t|c\n"));
    assert!(matches!(encoder_step(&mut ctx, "/login \"bob"), EncoderAction::ParseError(e) if e == "Missing closing quote"));
}
