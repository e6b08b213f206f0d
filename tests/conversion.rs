use tt::engine::transcode_tokens;
use tt::format::Format;
use tt::token::Token;

#[test]
fn todo() {
    let caps = Format::Json { pretty: true }.capabilities();
    let doc = vec![Token::Bool(true)];
    assert_eq!(transcode_tokens(doc.clone(), caps, 16), Ok(doc));
}
