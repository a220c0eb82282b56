//! Handing the variants of the staged templates to the engine, one after the other.
//!
//! A variant with a name of its own is filed under that name, every other variant under
//! the synthetic name for its rank among the unnamed variants. A name that is already
//! taken ends the work before the engine is asked, and so does the first body that the
//! engine refuses.
use crate::engine::{compiled_names, engine_answer, engine_intact, engine_with};
use crate::naming::{synthetic_handle, synthetic_handle_name};
use crate::string_map::StringMap;
use crate::template::{lemma_unnamed_count_ends, lemma_unnamed_count_step, unnamed_count, Content};
use vstd::prelude::*;

verus! {

/// Why the compiling stopped.
#[derive(Debug)]
pub enum CompileStop {
    /// The handle name inside was already taken by an earlier variant.
    NameRepeated(String),
    /// The engine refused a body; its diagnostic is inside.
    Refused(tera::Error),
}

/// The handle name of variant `j` of a template whose first unnamed variant gets the
/// counter value `first`.
pub open spec fn handle_in<L>(contents: Seq<Content<L>>, first: nat, j: int) -> Seq<char> {
    match contents[j].name {
        Some(name) => name@,
        None => synthetic_handle(first + unnamed_count(contents.take(j))),
    }
}

/// The handle names of the first `upto` variants of a template.
pub open spec fn handles_in<L>(contents: Seq<Content<L>>, first: nat, upto: int) -> Set<Seq<char>> {
    Set::new(
        |h: Seq<char>| exists|q: int| 0 <= q < upto && h == #[trigger] handle_in(contents, first, q),
    )
}

/// The engine after it has filed the first `upto` variants of a template.
pub open spec fn engine_through<L>(
    engine: tera::Tera,
    contents: Seq<Content<L>>,
    first: nat,
    upto: int,
) -> tera::Tera
    decreases upto,
{
    if upto <= 0 {
        engine
    } else {
        engine_with(
            engine_through(engine, contents, first, upto - 1),
            handle_in(contents, first, upto - 1),
            contents[upto - 1].content@,
        )
    }
}

/// Whether the handle name of variant `j` is taken neither by `taken` nor by an earlier
/// variant of the template.
pub open spec fn name_free<L>(
    taken: Set<Seq<char>>,
    contents: Seq<Content<L>>,
    first: nat,
    j: int,
) -> bool {
    &&& !taken.contains(handle_in(contents, first, j))
    &&& !handles_in(contents, first, j).contains(handle_in(contents, first, j))
}

/// What the engine answers when it is asked to file variant `j`, the earlier variants
/// of the template being filed.
pub open spec fn step_answer<L>(
    engine: tera::Tera,
    contents: Seq<Content<L>>,
    first: nat,
    j: int,
) -> Result<(), tera::Error> {
    engine_answer(
        engine_through(engine, contents, first, j),
        handle_in(contents, first, j),
        contents[j].content@,
    )
}

/// Variant `j` is filed: its name is free and the engine accepts its body.
pub open spec fn step_ok<L>(
    engine: tera::Tera,
    taken: Set<Seq<char>>,
    contents: Seq<Content<L>>,
    first: nat,
    j: int,
) -> bool {
    name_free(taken, contents, first, j) && step_answer(engine, contents, first, j) is Ok
}

/// The first `upto` variants of a template are filed.
pub open spec fn steps_ok<L>(
    engine: tera::Tera,
    taken: Set<Seq<char>>,
    contents: Seq<Content<L>>,
    first: nat,
    upto: int,
) -> bool {
    forall|q: int| 0 <= q < upto ==> #[trigger] step_ok(engine, taken, contents, first, q)
}

/// The compiling of a template stops at variant `j` with `stop`: the variants before it
/// are filed, and either the name of variant `j` is taken, or it is free and the engine
/// answers with the diagnostic in `stop`.
pub open spec fn stops_at<L>(
    stop: CompileStop,
    engine: tera::Tera,
    taken: Set<Seq<char>>,
    contents: Seq<Content<L>>,
    first: nat,
    j: int,
) -> bool {
    &&& 0 <= j < contents.len()
    &&& steps_ok(engine, taken, contents, first, j)
    &&& match stop {
        CompileStop::NameRepeated(name) => !name_free(taken, contents, first, j) && name@
            == handle_in(contents, first, j),
        CompileStop::Refused(e) => name_free(taken, contents, first, j) && step_answer(
            engine,
            contents,
            first,
            j,
        ) == Err::<(), tera::Error>(e),
    }
}

/// Whether the compiling of a template stops at some variant with `stop`.
pub open spec fn stops_within<L>(
    stop: CompileStop,
    engine: tera::Tera,
    taken: Set<Seq<char>>,
    contents: Seq<Content<L>>,
    first: nat,
) -> bool {
    exists|j: int| #[trigger] stops_at(stop, engine, taken, contents, first, j)
}

/// Files every variant of one template in the engine, in order, and gives their handle
/// names; or stops at the first variant whose name is taken or whose body the engine
/// refuses. `filed` keeps the names that the engine holds, and `counter` the value for
/// the next unnamed variant.
pub fn compile_template<L>(
    engine: &mut tera::Tera,
    filed: &mut StringMap<bool>,
    counter: &mut u128,
    contents: &Vec<Content<L>>,
) -> (r: Result<Vec<String>, CompileStop>)
    requires
        engine_intact(*old(engine)),
        old(filed).wf(),
        old(filed)@.dom() == compiled_names(*old(engine)),
        *old(counter) + contents@.len() <= u128::MAX,
    ensures
        match r {
            Ok(handles) => {
                &&& steps_ok(
                    *old(engine),
                    compiled_names(*old(engine)),
                    contents@,
                    *old(counter) as nat,
                    contents@.len() as int,
                )
                &&& *final(engine) == engine_through(
                    *old(engine),
                    contents@,
                    *old(counter) as nat,
                    contents@.len() as int,
                )
                &&& engine_intact(*final(engine))
                &&& compiled_names(*final(engine)) == compiled_names(*old(engine)).union(
                    handles_in(contents@, *old(counter) as nat, contents@.len() as int),
                )
                &&& final(filed).wf()
                &&& final(filed)@.dom() == compiled_names(*final(engine))
                &&& *final(counter) == *old(counter) + unnamed_count(contents@)
                &&& *final(counter) <= *old(counter) + contents@.len()
                &&& handles@.len() == contents@.len()
                &&& forall|j: int|
                    0 <= j < handles@.len() ==> (#[trigger] handles@[j])@ == handle_in(
                        contents@,
                        *old(counter) as nat,
                        j,
                    )
            },
            Err(stop) => stops_within(
                stop,
                *old(engine),
                compiled_names(*old(engine)),
                contents@,
                *old(counter) as nat,
            ),
        },
{
    let ghost start = *engine;
    let ghost taken = compiled_names(*engine);
    let ghost first = *counter as nat;
    let mut handles: Vec<String> = Vec::new();
    let mut j: usize = 0;
    proof {
        lemma_unnamed_count_ends(contents@);
        assert(taken.union(handles_in(contents@, first, 0)) =~= taken);
    }
    while j < contents.len()
        invariant
            j <= contents@.len(),
            first + contents@.len() <= u128::MAX,
            start == *old(engine),
            first == *old(counter) as nat,
            taken == compiled_names(start),
            steps_ok(start, taken, contents@, first, j as int),
            *engine == engine_through(start, contents@, first, j as int),
            engine_intact(*engine),
            compiled_names(*engine) == taken.union(handles_in(contents@, first, j as int)),
            filed.wf(),
            filed@.dom() == compiled_names(*engine),
            *counter == first + unnamed_count(contents@.take(j as int)),
            *counter <= first + j,
            handles@.len() == j,
            forall|q: int|
                0 <= q < j ==> (#[trigger] handles@[q])@ == handle_in(contents@, first, q),
        decreases contents@.len() - j,
    {
        let name = match &contents[j].name {
            Some(chosen) => chosen.clone(),
            None => {
                let made = synthetic_handle_name(*counter);
                *counter = *counter + 1;
                made
            },
        };
        proof {
            lemma_unnamed_count_step(contents@, j as int);
            assert(name@ == handle_in(contents@, first, j as int));
        }
        if filed.contains_key(name.as_str()) {
            proof {
                assert(stops_at(
                    CompileStop::NameRepeated(name),
                    start,
                    taken,
                    contents@,
                    first,
                    j as int,
                ));
            }
            return Err(CompileStop::NameRepeated(name));
        }
        match engine.add_raw_template(name.as_str(), contents[j].content.as_str()) {
            Ok(()) => {},
            Err(e) => {
                proof {
                    assert(stops_at(CompileStop::Refused(e), start, taken, contents@, first, j as int));
                }
                return Err(CompileStop::Refused(e));
            },
        }
        filed.insert(name.clone(), true);
        handles.push(name);
        proof {
            assert(step_ok(start, taken, contents@, first, j as int));
            assert(handles_in(contents@, first, j as int + 1) =~= handles_in(
                contents@,
                first,
                j as int,
            ).insert(handle_in(contents@, first, j as int))) by {
                assert forall|h: Seq<char>|
                    handles_in(contents@, first, j as int + 1).contains(h) == #[trigger] handles_in(
                        contents@,
                        first,
                        j as int,
                    ).insert(handle_in(contents@, first, j as int)).contains(h) by {
                    if handles_in(contents@, first, j as int + 1).contains(h) {
                        let q = choose|q: int|
                            0 <= q < j + 1 && h == #[trigger] handle_in(contents@, first, q);
                        if q < j {
                            assert(handles_in(contents@, first, j as int).contains(h));
                        }
                    }
                    if handles_in(contents@, first, j as int).contains(h) {
                        let q = choose|q: int|
                            0 <= q < j && h == #[trigger] handle_in(contents@, first, q);
                        assert(0 <= q < j + 1 && h == handle_in(contents@, first, q));
                    }
                    if h == handle_in(contents@, first, j as int) {
                        assert(0 <= j < j + 1 && h == handle_in(contents@, first, j as int));
                    }
                }
            }
            assert(compiled_names(*engine) =~= taken.union(
                handles_in(contents@, first, j as int + 1),
            ));
        }
        j += 1;
    }
    proof {
        lemma_unnamed_count_ends(contents@);
    }
    Ok(handles)
}

/// How many variants of the templates before position `i` carry no name of their own.
pub open spec fn unnamed_before<L>(table: Seq<Seq<Content<L>>>, i: int) -> nat
    decreases i,
{
    if i <= 0 {
        0
    } else {
        unnamed_before(table, i - 1) + unnamed_count(table[i - 1])
    }
}

/// The counter value for the first unnamed variant of template `i`: the counter runs
/// from one through the unnamed variants of all templates, in order.
pub open spec fn first_counter<L>(table: Seq<Seq<Content<L>>>, i: int) -> nat {
    1 + unnamed_before(table, i)
}

/// The handle name under which variant `j` of template `i` is compiled: its own name, or
/// the synthetic name for its rank among the unnamed variants, counted from one.
pub open spec fn handle_at<L>(table: Seq<Seq<Content<L>>>, i: int, j: int) -> Seq<char> {
    handle_in(table[i], first_counter(table, i), j)
}

/// The engine after it has filed every variant of the first `i` templates.
pub open spec fn engine_before<L>(engine: tera::Tera, table: Seq<Seq<Content<L>>>, i: int) -> tera::Tera
    decreases i,
{
    if i <= 0 {
        engine
    } else {
        engine_through(
            engine_before(engine, table, i - 1),
            table[i - 1],
            first_counter(table, i - 1),
            table[i - 1].len() as int,
        )
    }
}

/// The handle names of all variants of the first `i` templates.
pub open spec fn handles_before<L>(table: Seq<Seq<Content<L>>>, i: int) -> Set<Seq<char>>
    decreases i,
{
    if i <= 0 {
        Set::empty()
    } else {
        handles_before(table, i - 1).union(
            handles_in(table[i - 1], first_counter(table, i - 1), table[i - 1].len() as int),
        )
    }
}

/// Every variant of template `i` is filed, the templates before it being filed.
pub open spec fn template_ok<L>(engine: tera::Tera, table: Seq<Seq<Content<L>>>, i: int) -> bool {
    steps_ok(
        engine_before(engine, table, i),
        handles_before(table, i),
        table[i],
        first_counter(table, i),
        table[i].len() as int,
    )
}

/// Every variant of the first `n` templates is filed when the work starts from
/// `engine`: no handle name comes twice and the engine accepts every body.
pub open spec fn all_compiled<L>(engine: tera::Tera, table: Seq<Seq<Content<L>>>, n: int) -> bool {
    forall|i: int| 0 <= i < n ==> #[trigger] template_ok(engine, table, i)
}

/// The compiling of the templates stops with `stop` at template `i`: the templates
/// before it are filed, and the compiling of template `i` stops with `stop`.
pub open spec fn stops_in<L>(
    stop: CompileStop,
    engine: tera::Tera,
    table: Seq<Seq<Content<L>>>,
    i: int,
) -> bool {
    &&& 0 <= i < table.len()
    &&& all_compiled(engine, table, i)
    &&& stops_within(
        stop,
        engine_before(engine, table, i),
        handles_before(table, i),
        table[i],
        first_counter(table, i),
    )
}

/// Whether the compiling of the templates stops with `stop` somewhere.
pub open spec fn compile_stops<L>(
    stop: CompileStop,
    engine: tera::Tera,
    table: Seq<Seq<Content<L>>>,
) -> bool {
    exists|i: int| #[trigger] stops_in(stop, engine, table, i)
}

/// Compiling that stops has not filed every variant.
pub proof fn lemma_stop_excludes_success<L>(
    stop: CompileStop,
    engine: tera::Tera,
    table: Seq<Seq<Content<L>>>,
)
    requires
        compile_stops(stop, engine, table),
    ensures
        !all_compiled(engine, table, table.len() as int),
{
    let i = choose|i: int| #[trigger] stops_in(stop, engine, table, i);
    let j = choose|j: int| #[trigger]
        stops_at(
            stop,
            engine_before(engine, table, i),
            handles_before(table, i),
            table[i],
            first_counter(table, i),
            j,
        );
    if all_compiled(engine, table, table.len() as int) {
        assert(template_ok(engine, table, i));
        assert(step_ok(
            engine_before(engine, table, i),
            handles_before(table, i),
            table[i],
            first_counter(table, i),
            j,
        ));
    }
}

} // verus!
