//! Trusted boundary to the syntect TextMate engine.
//!
//! Each wrapper makes exactly one syntect (or std) call; everything that
//! interprets the results — line splitting, span construction, category
//! resolution, merging, caching — is verified code elsewhere. What a parse
//! returns depends on the grammar bundle, so the parse results are left
//! unconstrained and the verified callers hold for every outcome.

use vstd::prelude::*;

verus! {

#[verifier::external_type_specification]
#[verifier::external_body]
pub struct ExSyntaxSet(syntect::parsing::SyntaxSet);

#[verifier::external_type_specification]
#[verifier::external_body]
pub struct ExParseState(syntect::parsing::ParseState);

#[verifier::external_type_specification]
#[verifier::external_body]
pub struct ExScopeStack(syntect::parsing::ScopeStack);

#[verifier::external_type_specification]
#[verifier::external_body]
pub struct ExScopeStackOp(syntect::parsing::ScopeStackOp);

#[verifier::external_type_specification]
#[verifier::external_body]
pub struct ExScope(syntect::parsing::Scope);

/// What the otherwise opaque syntax-set collection holds: the names of its
/// syntaxes, in definition order, as UTF-8 bytes.
pub uninterp spec fn syntax_names_of(ss: syntect::parsing::SyntaxSet) -> Seq<Seq<u8>>;

/// The set is internally complete: every syntax it holds can resolve its
/// start context within the set. Syntect's own loaders establish this;
/// a set assembled by hand through the builder's public fields need not,
/// and constructing a parse state for such a syntax would panic. Only the
/// trusted loader below establishes this predicate.
pub uninterp spec fn set_well_formed(ss: syntect::parsing::SyntaxSet) -> bool;

/// The parse state was built for a syntax of this very set. Syntect
/// documents that `parse_line` must be given the same set the state was
/// created with, else it may return wrong results or panic; this provenance
/// predicate ties the two together.
pub uninterp spec fn state_matches(
    state: syntect::parsing::ParseState,
    ss: syntect::parsing::SyntaxSet,
) -> bool;

/// The name the set's extension lookup resolves, if any: a function of the
/// set and the extension alone.
pub uninterp spec fn found_by_extension(ss: syntect::parsing::SyntaxSet, ext: Seq<u8>) -> Option<
    Seq<u8>,
>;

/// Whether a byte sequence is valid UTF-8, as `core::str::from_utf8`
/// decides it.
pub uninterp spec fn is_utf8(s: Seq<u8>) -> bool;

/// Relies on SyntaxSet::load_defaults_newlines: the grammar bundle shipped
/// with syntect, linked and therefore internally complete.
#[verifier::external_body]
pub fn load_default_syntax_set() -> (r: syntect::parsing::SyntaxSet)
    ensures
        set_well_formed(r),
{
    syntect::parsing::SyntaxSet::load_defaults_newlines()
}

/// Relies on SyntaxSet::syntaxes: the set holds one named syntax per entry.
#[verifier::external_body]
pub fn syntax_count(ss: &syntect::parsing::SyntaxSet) -> (r: usize)
    ensures
        r == syntax_names_of(*ss).len(),
{
    ss.syntaxes().len()
}

/// Relies on SyntaxSet::syntaxes and SyntaxReference::name: the name of the
/// syntax at `i`.
#[verifier::external_body]
pub fn syntax_name_at(ss: &syntect::parsing::SyntaxSet, i: usize) -> (r: Vec<u8>)
    requires
        i < syntax_names_of(*ss).len(),
    ensures
        r@ == syntax_names_of(*ss)[i as int],
{
    ss.syntaxes()[i].name.clone().into_bytes()
}

/// Relies on SyntaxSet::find_syntax_by_extension: a deterministic search of
/// the set by extension; the result, if any, is the name of one of the
/// set's own syntaxes.
#[verifier::external_body]
pub fn find_syntax_name_by_extension(ss: &syntect::parsing::SyntaxSet, ext: &[u8]) -> (r: Option<
    Vec<u8>,
>)
    ensures
        r matches Some(n) ==> syntax_names_of(*ss).contains(n@) && found_by_extension(*ss, ext@)
            == Some(n@),
        r is None ==> found_by_extension(*ss, ext@) is None,
{
    core::str::from_utf8(ext).ok().and_then(|e| ss.find_syntax_by_extension(e)).map(
        |s| s.name.clone().into_bytes(),
    )
}

/// Relies on ParseState::new for the syntax at `index`. The requires keeps
/// the indexing in bounds and demands an internally complete set, since the
/// constructor resolves the syntax's start context; the state it returns
/// belongs to this set.
#[verifier::external_body]
pub fn parse_state_for(ss: &syntect::parsing::SyntaxSet, index: usize) -> (r:
    syntect::parsing::ParseState)
    requires
        set_well_formed(*ss),
        index < syntax_names_of(*ss).len(),
    ensures
        state_matches(r, *ss),
{
    syntect::parsing::ParseState::new(&ss.syntaxes()[index])
}

/// Relies on ParseState::parse_line: the scope operations for one source
/// line, each tagged with its byte offset in the line, or nothing when the
/// line fails to parse (the state then simply carries forward). The state
/// must be used with the set it was built from — syntect documents that
/// another set gives wrong results or a panic — and stays tied to it. What
/// the operations are depends on the grammar; callers hold for every
/// outcome.
#[verifier::external_body]
pub fn parse_line_ops(
    state: &mut syntect::parsing::ParseState,
    line: &[u8],
    ss: &syntect::parsing::SyntaxSet,
) -> (r: Option<Vec<(usize, syntect::parsing::ScopeStackOp)>>)
    requires
        state_matches(*old(state), *ss),
    ensures
        state_matches(*final(state), *ss),
{
    core::str::from_utf8(line).ok().and_then(|l| state.parse_line(l, ss).ok())
}

/// Relies on ScopeStack::new: the empty scope stack.
#[verifier::external_body]
pub fn scope_stack_new() -> syntect::parsing::ScopeStack {
    syntect::parsing::ScopeStack::new()
}

/// Relies on ScopeStack::apply. A failing operation leaves the stack to
/// carry forward unchanged, matching the skip-on-error parsing policy.
#[verifier::external_body]
pub fn apply_scope_op(stack: &mut syntect::parsing::ScopeStack, op: &syntect::parsing::ScopeStackOp) {
    let _ = stack.apply(op);
}

/// Relies on ScopeStack::as_slice: the stack's scopes, outermost first.
#[verifier::external_body]
pub fn stack_scopes(stack: &syntect::parsing::ScopeStack) -> Vec<syntect::parsing::Scope> {
    stack.as_slice().to_vec()
}

/// Relies on Scope::build_string: the scope's dotted selector name.
#[verifier::external_body]
pub fn scope_name(s: &syntect::parsing::Scope) -> Vec<u8> {
    s.build_string().into_bytes()
}

/// Relies on core::str::from_utf8: whether the bytes are valid UTF-8.
#[verifier::external_body]
pub fn utf8_check(b: &[u8]) -> (r: bool)
    ensures
        r == is_utf8(b@),
{
    core::str::from_utf8(b).is_ok()
}

} // verus!
