use vstd::prelude::*;
use vstd::utf8::is_ascii_chars;

verus! {

/// The member identifier that serenity reads out of a mention token.
pub uninterp spec fn mention_id_of(token: Seq<char>) -> Option<u64>;

/// Relies on `serenity::utils::parse_mention`: the identifier inside a user,
/// role or channel mention. Its result depends on the text alone, and text
/// that does not start with `<` is no mention. It slices the text by bytes
/// and can panic on text that is not ASCII, which is kept out.
#[verifier::external_body]
fn parse_mention_id(token: &str) -> (r: Option<u64>)
    requires
        is_ascii_chars(token@),
    ensures
        r == mention_id_of(token@),
        !(token@.len() > 0 && token@[0] == '<') ==> r is None,
{
    serenity::utils::parse_mention(token)
}

/// Why a containment command names no member.
pub enum TargetError {
    /// The command did not carry exactly one argument.
    Usage,
    /// The one argument is not a mention.
    NoMention,
}

/// The member a containment command is about: its one argument must be a
/// mention, which is ASCII text.
pub fn command_target(args: &[String]) -> (r: Result<u64, TargetError>)
    ensures
        args@.len() != 1 ==> r matches Err(TargetError::Usage),
        args@.len() == 1 && !is_ascii_chars(args@[0]@) ==> r matches Err(TargetError::NoMention),
        args@.len() == 1 && is_ascii_chars(args@[0]@) ==> match mention_id_of(args@[0]@) {
            Some(id) => r matches Ok(t) && t == id,
            None => r matches Err(TargetError::NoMention),
        },
{
    if args.len() != 1 {
        return Err(TargetError::Usage);
    }
    let token = args[0].as_str();
    if !token.is_ascii() {
        return Err(TargetError::NoMention);
    }
    match parse_mention_id(token) {
        Some(id) => Ok(id),
        None => Err(TargetError::NoMention),
    }
}

} // verus!
