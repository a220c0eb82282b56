//! The template engine, as far as this library relies on it.
//!
//! Compiling a template body is the work of the `tera` crate. Nothing in this module is
//! proved: each item states what the library takes for granted about the engine. The
//! rest of the library is verified against these statements alone.
//!
//! Expanding a compiled template is not called from this library at all: on some bodies
//! and contexts the engine's arithmetic panics, and nothing a caller could test tells
//! those apart. The repository takes the expansion as a function from its caller.
use vstd::prelude::*;

verus! {

/// `tera::Tera`, the engine that owns the compiled templates. Opaque to the verifier.
#[verifier::external_type_specification]
#[verifier::external_body]
pub struct ExTera(tera::Tera);

/// `tera::Error`, the engine's diagnostic. Opaque to the verifier.
#[verifier::external_type_specification]
#[verifier::external_body]
pub struct ExEngineError(tera::Error);

/// The names under which an engine holds a compiled template: the keys of the engine's
/// template table.
pub uninterp spec fn compiled_names(engine: tera::Tera) -> Set<Seq<char>>;

/// Whether every template that the engine holds was filed by a call that succeeded, so
/// that the parent of each template was filed before the template itself.
pub uninterp spec fn engine_intact(engine: tera::Tera) -> bool;

/// What `add_raw_template` answers when an intact engine is asked to file `content`
/// under a name that it does not hold yet.
pub uninterp spec fn engine_answer(
    engine: tera::Tera,
    name: Seq<char>,
    content: Seq<char>,
) -> Result<(), tera::Error>;

/// The engine that `add_raw_template` leaves behind when it has filed `content` under
/// `name`.
pub uninterp spec fn engine_with(engine: tera::Tera, name: Seq<char>, content: Seq<char>) -> tera::Tera;

/// `<tera::Tera as Default>::default`: a fresh engine. Assumed: it holds no template, and
/// so is intact.
pub assume_specification[ <tera::Tera as Default>::default ]() -> (engine: tera::Tera)
    ensures
        compiled_names(engine) == Set::<Seq<char>>::empty(),
        engine_intact(engine),
;

/// `<tera::Tera as Clone>::clone`: a second engine with the same contents. Assumed: the
/// copy holds the names that the engine holds.
pub assume_specification[ <tera::Tera as Clone>::clone ](engine: &tera::Tera) -> (copy: tera::Tera)
    ensures
        compiled_names(copy) == compiled_names(*engine),
;

/// `tera::Tera::add_raw_template`: compiles `content` and files it under `name`.
///
/// Asked of the caller: the engine is intact and does not hold `name` yet. Filing a
/// second body under a name that templates already extend can send the engine's walk
/// over the parents round a cycle without end, and so can a call on an engine that an
/// earlier call left half updated.
///
/// Assumed for such calls: the answer depends on the engine, the name and the body
/// alone; after success the engine is the one named `engine_with`, it holds the names it
/// held before and `name`, and it is intact again. Nothing is assumed about the engine
/// after a failure.
pub assume_specification[ tera::Tera::add_raw_template ](
    engine: &mut tera::Tera,
    name: &str,
    content: &str,
) -> (outcome: Result<(), tera::Error>)
    requires
        engine_intact(*old(engine)),
        !compiled_names(*old(engine)).contains(name@),
    ensures
        outcome == engine_answer(*old(engine), name@, content@),
        outcome is Ok ==> *final(engine) == engine_with(*old(engine), name@, content@),
        outcome is Ok ==> compiled_names(*final(engine)) == compiled_names(*old(engine)).insert(
            name@,
        ),
        outcome is Ok ==> engine_intact(*final(engine)),
;

} // verus!
