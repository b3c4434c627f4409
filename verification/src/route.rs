//! Regrouping the sections of a transcript by function: each function gets
//! the list of the sections that show it, in the order of the transcript.

use crate::dump::{
    PassDump, PassDumpError, PassDumpErrorView, PassDumpView, PassDumpsByFunction, SplitPassDump,
    SplitPassDumpView,
};
use crate::function::LOOP;
use crate::optpipeline::LlvmPassDumpParser;
use crate::table::{
    add_item, add_to_all, distinct_names, find_name, has_name, lemma_add_item_distinct,
    lemma_add_item_names, lemma_add_to_all_distinct, lemma_add_to_all_names, lemma_position_from,
    lemma_register_distinct, lemma_register_names, register,
};
use crate::text::{join, join_strings, matches_at, to_chars};
use vstd::prelude::*;
use vstd::string::{StrSliceExecFns, StringExecFns};

verus! {

/// The name under which the passes over the whole module are kept.
pub const FULL_MODULE: &'static str = "<Full Module>";

/// Where the routing stands: the table so far, and the function that the last
/// section was given to, if the next loop may belong to it.
pub struct Routing {
    pub table: Seq<(Seq<char>, Seq<PassDumpView>)>,
    pub previous: Option<Seq<char>>,
}

/// The routing before the first section, with the table `table`.
pub open spec fn routing_start(table: Seq<(Seq<char>, Seq<PassDumpView>)>) -> Routing {
    Routing { table, previous: None }
}

/// The routing after one function of a section with the header `header`: the
/// section goes to the function `name`, its body the lines joined by line
/// feeds, and that function is the one that a loop after it belongs to. A
/// loop goes to the function before it, and is refused where there is none.
pub open spec fn route_function(
    routing: Routing,
    header: Seq<char>,
    machine: bool,
    name: Seq<char>,
    lines: Seq<Seq<char>>,
) -> Result<Routing, PassDumpErrorView> {
    let target = if name == LOOP@ {
        routing.previous
    } else {
        Some(name)
    };
    match target {
        Some(function) => Ok(
            Routing {
                table: add_item(
                    routing.table,
                    function,
                    PassDumpView {
                        header,
                        affected_function: None,
                        machine,
                        lines: join(lines, seq!['\n']),
                    },
                ),
                previous: target,
            },
        ),
        None => Err(PassDumpErrorView::MissingFunction { header }),
    }
}

/// The routing after the first `n` functions of the section `dump`.
pub open spec fn route_functions(routing: Routing, dump: SplitPassDumpView, n: int) -> Result<
    Routing,
    PassDumpErrorView,
>
    decreases n,
{
    if n <= 0 {
        Ok(routing)
    } else {
        match route_functions(routing, dump, n - 1) {
            Ok(before) => route_function(
                before,
                dump.header,
                dump.machine,
                dump.functions[n - 1].0,
                dump.functions[n - 1].1,
            ),
            Err(e) => Err(e),
        }
    }
}

/// The routing after all of `dumps`, each with all its functions.
pub open spec fn route_dumps(dumps: Seq<SplitPassDumpView>) -> Result<Routing, PassDumpErrorView>
    decreases dumps.len(),
{
    if dumps.len() == 0 {
        Ok(routing_start(Seq::empty()))
    } else {
        match route_dumps(dumps.drop_last()) {
            Ok(before) => route_functions(before, dumps.last(), dumps.last().functions.len() as int),
            Err(e) => Err(e),
        }
    }
}

/// The table of `dumps` by function, or the first refusal.
pub open spec fn by_function(dumps: Seq<SplitPassDumpView>) -> Result<
    Seq<(Seq<char>, Seq<PassDumpView>)>,
    PassDumpErrorView,
> {
    match route_dumps(dumps) {
        Ok(routing) => Ok(routing.table),
        Err(e) => Err(e),
    }
}

/// Whether the note of a header names a loop and not a function: it begins
/// with a percent sign.
pub open spec fn names_loop(name: Seq<char>) -> bool {
    name.len() > 0 && name[0] == '%'
}

/// A table with an empty list for every name that a header of `dumps` notes.
pub open spec fn registered(dumps: Seq<PassDumpView>) -> Seq<(Seq<char>, Seq<PassDumpView>)>
    decreases dumps.len(),
{
    if dumps.len() == 0 {
        Seq::empty()
    } else {
        let before = registered(dumps.drop_last());
        match dumps.last().affected_function {
            Some(name) => register(before, name),
            None => before,
        }
    }
}

/// The header `header` with the function `function` in brackets after it.
pub open spec fn tagged(header: Seq<char>, function: Seq<char>) -> Seq<char> {
    header + " ("@ + function + ")"@
}

/// The routing after one section of a module-wide transcript. A section whose
/// header notes a function goes to that function alone, its header tagged
/// with the function; one that notes a loop goes to the function of the
/// section before it, and is refused where there is none. A section without a
/// note goes to every function, and no loop may follow it.
pub open spec fn associate_step(routing: Routing, dump: PassDumpView) -> Result<
    Routing,
    PassDumpErrorView,
> {
    match dump.affected_function {
        Some(name) => {
            let target = if names_loop(name) {
                routing.previous
            } else {
                Some(name)
            };
            match target {
                Some(function) => Ok(
                    Routing {
                        table: add_item(
                            routing.table,
                            function,
                            PassDumpView {
                                header: tagged(dump.header, function),
                                affected_function: target,
                                machine: dump.machine,
                                lines: dump.lines,
                            },
                        ),
                        previous: target,
                    },
                ),
                None => Err(PassDumpErrorView::MissingFunction { header: dump.header }),
            }
        },
        None => Ok(
            Routing {
                table: add_to_all(
                    routing.table,
                    PassDumpView {
                        header: dump.header,
                        affected_function: None,
                        machine: dump.machine,
                        lines: dump.lines,
                    },
                ),
                previous: None,
            },
        ),
    }
}

/// The routing after all of `dumps`, from the routing `start`.
pub open spec fn associate_dumps(start: Routing, dumps: Seq<PassDumpView>) -> Result<
    Routing,
    PassDumpErrorView,
>
    decreases dumps.len(),
{
    if dumps.len() == 0 {
        Ok(start)
    } else {
        match associate_dumps(start, dumps.drop_last()) {
            Ok(before) => associate_step(before, dumps.last()),
            Err(e) => Err(e),
        }
    }
}

/// The table of the module-wide `dumps` by function, or the first refusal.
/// Every function that a header notes has an entry, and so has the whole
/// module.
pub open spec fn associated(dumps: Seq<PassDumpView>) -> Result<
    Seq<(Seq<char>, Seq<PassDumpView>)>,
    PassDumpErrorView,
> {
    match associate_dumps(routing_start(register(registered(dumps), FULL_MODULE@)), dumps) {
        Ok(routing) => Ok(routing.table),
        Err(e) => Err(e),
    }
}

/// The name that stands for a loop is never that of an entry of `table`.
pub open spec fn without_loop<V>(table: Seq<(Seq<char>, V)>) -> bool {
    !has_name(table, LOOP@)
}

/// What holds of the routing of sections that were cut into functions: no
/// name stands twice in the table, and a loop is stored under the name of its
/// function, never under the name that stands for a loop.
pub open spec fn routing_sound(routing: Routing) -> bool {
    &&& distinct_names(routing.table)
    &&& without_loop(routing.table)
    &&& routing.previous != Some(LOOP@)
}

/// The functions of one section keep the routing sound.
proof fn lemma_route_functions_sound(routing: Routing, dump: SplitPassDumpView, n: int)
    requires
        routing_sound(routing),
    ensures
        route_functions(routing, dump, n) matches Ok(after) ==> routing_sound(after),
    decreases n,
{
    if n > 0 {
        lemma_route_functions_sound(routing, dump, n - 1);
        match route_functions(routing, dump, n - 1) {
            Ok(before) => {
                let name = dump.functions[n - 1].0;
                let target = if name == LOOP@ {
                    before.previous
                } else {
                    Some(name)
                };
                if target is Some {
                    let item = PassDumpView {
                        header: dump.header,
                        affected_function: None,
                        machine: dump.machine,
                        lines: join(dump.functions[n - 1].1, seq!['\n']),
                    };
                    lemma_add_item_distinct(before.table, target->0, item);
                    lemma_add_item_names(before.table, target->0, item, LOOP@);
                }
            },
            Err(_) => {},
        }
    }
}

/// The routing of any list of sections is sound.
proof fn lemma_route_dumps_sound(dumps: Seq<SplitPassDumpView>)
    ensures
        route_dumps(dumps) matches Ok(after) ==> routing_sound(after),
    decreases dumps.len(),
{
    if dumps.len() > 0 {
        lemma_route_dumps_sound(dumps.drop_last());
        match route_dumps(dumps.drop_last()) {
            Ok(before) => {
                lemma_route_functions_sound(
                    before,
                    dumps.last(),
                    dumps.last().functions.len() as int,
                );
            },
            Err(_) => {},
        }
    } else {
        lemma_position_from(Seq::<(Seq<char>, Seq<PassDumpView>)>::empty(), LOOP@, 0);
    }
}

/// In the table of sections by function no name stands twice, and none is
/// the name that stands for a loop: a loop is stored with the function that
/// it belongs to.
pub proof fn lemma_by_function_names(dumps: Seq<SplitPassDumpView>)
    ensures
        by_function(dumps) matches Ok(table) ==> distinct_names(table) && without_loop(table),
{
    lemma_route_dumps_sound(dumps);
}

/// No name is entered twice.
proof fn lemma_registered_distinct(dumps: Seq<PassDumpView>)
    ensures
        distinct_names(registered(dumps)),
    decreases dumps.len(),
{
    if dumps.len() > 0 {
        lemma_registered_distinct(dumps.drop_last());
        match dumps.last().affected_function {
            Some(name) => {
                lemma_register_distinct(registered(dumps.drop_last()), name);
            },
            None => {},
        }
    }
}

/// The sections of a module-wide transcript keep the names of the table
/// distinct and the entry of the whole module in it.
proof fn lemma_associate_dumps_sound(start: Routing, dumps: Seq<PassDumpView>)
    requires
        distinct_names(start.table),
        has_name(start.table, FULL_MODULE@),
    ensures
        associate_dumps(start, dumps) matches Ok(after) ==> distinct_names(after.table)
            && has_name(after.table, FULL_MODULE@),
    decreases dumps.len(),
{
    if dumps.len() > 0 {
        lemma_associate_dumps_sound(start, dumps.drop_last());
        match associate_dumps(start, dumps.drop_last()) {
            Ok(before) => {
                let dump = dumps.last();
                match associate_step(before, dump) {
                    Ok(after) => {
                        match dump.affected_function {
                            Some(name) => {
                                let target = if names_loop(name) {
                                    before.previous
                                } else {
                                    Some(name)
                                };
                                let item = PassDumpView {
                                    header: tagged(dump.header, target->0),
                                    affected_function: target,
                                    machine: dump.machine,
                                    lines: dump.lines,
                                };
                                lemma_add_item_distinct(before.table, target->0, item);
                                lemma_add_item_names(before.table, target->0, item, FULL_MODULE@);
                            },
                            None => {
                                let item = PassDumpView {
                                    header: dump.header,
                                    affected_function: None,
                                    machine: dump.machine,
                                    lines: dump.lines,
                                };
                                lemma_add_to_all_distinct(before.table, item);
                                lemma_add_to_all_names(before.table, item, FULL_MODULE@);
                            },
                        }
                    },
                    Err(_) => {},
                }
            },
            Err(_) => {},
        }
    }
}

/// In the table of the sections of a module-wide transcript no name stands
/// twice, and the whole module always has an entry.
pub proof fn lemma_associated_names(dumps: Seq<PassDumpView>)
    ensures
        associated(dumps) matches Ok(table) ==> distinct_names(table) && has_name(
            table,
            FULL_MODULE@,
        ),
{
    lemma_registered_distinct(dumps);
    lemma_register_distinct(registered(dumps), FULL_MODULE@);
    lemma_register_names(registered(dumps), FULL_MODULE@, FULL_MODULE@);
    lemma_associate_dumps_sound(
        routing_start(register(registered(dumps), FULL_MODULE@)),
        dumps,
    );
}

/// Whether `a` and `b` are the same text.
pub fn same_text(a: &str, b: &str) -> (r: bool)
    ensures
        r == (a@ == b@),
{
    let chars = to_chars(a);
    let r = chars.len() == b.unicode_len() && matches_at(chars.as_slice(), b, 0);
    proof {
        if r {
            assert(a@.subrange(0, a@.len() as int) =~= a@);
        }
        if a@ == b@ {
            assert(a@.subrange(0, a@.len() as int) =~= a@);
        }
    }
    r
}

/// Whether the note `name` of a header names a loop.
pub fn is_loop_name(name: &str) -> (r: bool)
    ensures
        r == names_loop(name@),
{
    let chars = to_chars(name);
    chars.len() > 0 && chars[0] == '%'
}

/// The routing as it runs.
pub struct Router {
    pub table: PassDumpsByFunction,
    pub previous: Option<String>,
}

impl View for Router {
    type V = Routing;

    open spec fn view(&self) -> Routing {
        Routing {
            table: self.table.deep_view(),
            previous: match self.previous {
                Some(name) => Some(name@),
                None => None,
            },
        }
    }
}

/// Adds `item` to the list of `name`, which becomes a new last entry if the
/// table has none for that name.
pub fn push_to(table: &mut PassDumpsByFunction, name: String, item: PassDump)
    ensures
        final(table).deep_view() == add_item(old(table).deep_view(), name@, item@),
{
    let ghost before = table.deep_view();
    match find_name(table, &name) {
        Some(i) => {
            let ghost list = table[i as int].1.deep_view();
            table[i].1.push(item);
            assert(table[i as int].1.deep_view() =~= list.push(item@));
            assert(table.deep_view() =~= before.update(i as int, (name@, list.push(item@))));
        },
        None => {
            let list = vec![item];
            assert(list.deep_view() =~= seq![item@]);
            table.push((name, list));
            assert(table.deep_view() =~= before.push((name@, seq![item@])));
        },
    }
}

impl Router {
    /// Gives one function of a section to the function that it belongs to.
    pub fn route(self, header: &String, machine: bool, name: &String, lines: &Vec<String>) -> (r:
        Result<Router, PassDumpError>)
        ensures
            match r {
                Ok(router) => route_function(self@, header@, machine, name@, lines.deep_view())
                    == Ok::<Routing, PassDumpErrorView>(router@),
                Err(e) => route_function(self@, header@, machine, name@, lines.deep_view())
                    == Err::<Routing, PassDumpErrorView>(e@),
            },
    {
        let Router { mut table, previous } = self;
        let target = if same_text(name.as_str(), LOOP) {
            previous
        } else {
            Some(name.clone())
        };
        match target {
            Some(function) => {
                proof {
                    reveal_strlit("\n");
                    assert("\n"@ =~= seq!['\n']);
                }
                let item = PassDump {
                    header: header.clone(),
                    affected_function: None,
                    machine,
                    lines: join_strings(lines, "\n"),
                };
                push_to(&mut table, function.clone(), item);
                Ok(Router { table, previous: Some(function) })
            },
            None => Err(PassDumpError::MissingFunction { header: header.clone() }),
        }
    }

    /// Gives one section of a module-wide transcript to the function that its
    /// header notes, or to every function.
    pub fn associate(self, dump: &PassDump) -> (r: Result<Router, PassDumpError>)
        ensures
            match r {
                Ok(router) => associate_step(self@, dump@) == Ok::<Routing, PassDumpErrorView>(
                    router@,
                ),
                Err(e) => associate_step(self@, dump@) == Err::<Routing, PassDumpErrorView>(e@),
            },
    {
        let Router { mut table, previous } = self;
        match &dump.affected_function {
            Some(name) => {
                let target = if is_loop_name(name.as_str()) {
                    previous
                } else {
                    Some(name.clone())
                };
                match target {
                    Some(function) => {
                        let mut header = dump.header.clone();
                        header.append(" (");
                        header.append(function.as_str());
                        header.append(")");
                        let item = PassDump {
                            header,
                            affected_function: Some(function.clone()),
                            machine: dump.machine,
                            lines: dump.lines.clone(),
                        };
                        push_to(&mut table, function.clone(), item);
                        Ok(Router { table, previous: Some(function) })
                    },
                    None => Err(PassDumpError::MissingFunction { header: dump.header.clone() }),
                }
            },
            None => {
                let ghost before = table.deep_view();
                let ghost item = PassDumpView {
                    header: dump.header@,
                    affected_function: None,
                    machine: dump.machine,
                    lines: dump.lines@,
                };
                let mut i: usize = 0;
                while i < table.len()
                    invariant
                        i <= table.len(),
                        table.len() == before.len(),
                        item == (PassDumpView {
                            header: dump.header@,
                            affected_function: None,
                            machine: dump.machine,
                            lines: dump.lines@,
                        }),
                        forall|j: int|
                            0 <= j < i ==> (#[trigger] table.deep_view()[j]) == (
                                before[j].0,
                                before[j].1.push(item),
                            ),
                        forall|j: int|
                            i <= j < table.len() ==> (#[trigger] table.deep_view()[j]) == before[j],
                    decreases table.len() - i,
                {
                    let copy = PassDump {
                        header: dump.header.clone(),
                        affected_function: None,
                        machine: dump.machine,
                        lines: dump.lines.clone(),
                    };
                    let ghost list = table[i as int].1.deep_view();
                    let ghost earlier = table.deep_view();
                    assert(earlier[i as int] == before[i as int]);
                    table[i].1.push(copy);
                    assert(table[i as int].1.deep_view() =~= list.push(item));
                    assert forall|j: int| 0 <= j < table.len() && j != i implies
                        #[trigger] table.deep_view()[j] == earlier[j] by {}
                    i += 1;
                }
                assert(table.deep_view() =~= add_to_all(before, item));
                Ok(Router { table, previous: None })
            },
        }
    }
}

impl LlvmPassDumpParser {
    /// Regroups sections that were cut into functions: one list of sections
    /// for each function.
    pub fn breakdown_into_pass_dumps_by_function(&self, pass_dumps: Vec<SplitPassDump>) -> (r:
        Result<PassDumpsByFunction, PassDumpError>)
        ensures
            match r {
                Ok(table) => by_function(pass_dumps.deep_view()) == Ok::<_, PassDumpErrorView>(
                    table.deep_view(),
                ),
                Err(e) => by_function(pass_dumps.deep_view()) == Err::<
                    Seq<(Seq<char>, Seq<PassDumpView>)>,
                    _,
                >(e@),
            },
    {
        let ghost dumps = pass_dumps.deep_view();
        let mut router = Router { table: Vec::new(), previous: None };
        assert(router.table.deep_view() =~= Seq::empty());
        assert(dumps.take(0) =~= Seq::<SplitPassDumpView>::empty());
        let mut i: usize = 0;
        while i < pass_dumps.len()
            invariant
                i <= pass_dumps.len(),
                dumps == pass_dumps.deep_view(),
                route_dumps(dumps.take(i as int)) == Ok::<Routing, PassDumpErrorView>(router@),
            decreases pass_dumps.len() - i,
        {
            let dump = &pass_dumps[i];
            assert(dumps.take(i + 1).drop_last() =~= dumps.take(i as int));
            assert(dumps.take(i + 1).last() == dump@);
            let mut k: usize = 0;
            while k < dump.functions.len()
                invariant
                    k <= dump.functions.len(),
                    i < pass_dumps.len(),
                    dumps == pass_dumps.deep_view(),
                    dump == pass_dumps[i as int],
                    route_dumps(dumps.take(i as int)) is Ok,
                    route_functions(route_dumps(dumps.take(i as int))->Ok_0, dump@, k as int)
                        == Ok::<Routing, PassDumpErrorView>(router@),
                decreases dump.functions.len() - k,
            {
                let entry = &dump.functions[k];
                match router.route(&dump.header, dump.machine, &entry.0, &entry.1) {
                    Ok(next) => {
                        router = next;
                    },
                    Err(e) => {
                        proof {
                            assert(dumps.take(i + 1).drop_last() =~= dumps.take(i as int));
                            assert(dumps.take(i + 1).last() == dump@);
                            lemma_route_functions_fails(
                                route_dumps(dumps.take(i as int))->Ok_0,
                                dump@,
                                k + 1,
                                dump.functions.len() as int,
                            );
                            lemma_route_dumps_fails(dumps, i + 1);
                        }
                        return Err(e);
                    },
                }
                k += 1;
            }
            i += 1;
        }
        assert(dumps.take(pass_dumps.len() as int) =~= dumps);
        Ok(router.table)
    }

    /// Regroups the sections of a module-wide transcript: one list of
    /// sections for each function that a header notes, and one for the whole
    /// module.
    pub fn associate_full_dumps_with_functions(&self, pass_dumps: Vec<PassDump>) -> (r: Result<
        PassDumpsByFunction,
        PassDumpError,
    >)
        ensures
            match r {
                Ok(table) => associated(pass_dumps.deep_view()) == Ok::<_, PassDumpErrorView>(
                    table.deep_view(),
                ),
                Err(e) => associated(pass_dumps.deep_view()) == Err::<
                    Seq<(Seq<char>, Seq<PassDumpView>)>,
                    _,
                >(e@),
            },
    {
        let ghost dumps = pass_dumps.deep_view();
        let mut table: PassDumpsByFunction = Vec::new();
        assert(table.deep_view() =~= Seq::empty());
        assert(dumps.take(0) =~= Seq::<PassDumpView>::empty());
        let mut i: usize = 0;
        while i < pass_dumps.len()
            invariant
                i <= pass_dumps.len(),
                dumps == pass_dumps.deep_view(),
                table.deep_view() == registered(dumps.take(i as int)),
            decreases pass_dumps.len() - i,
        {
            assert(dumps.take(i + 1).drop_last() =~= dumps.take(i as int));
            assert(dumps.take(i + 1).last() == pass_dumps[i as int]@);
            match &pass_dumps[i].affected_function {
                Some(name) => {
                    enter(&mut table, name);
                },
                None => {},
            }
            i += 1;
        }
        assert(dumps.take(pass_dumps.len() as int) =~= dumps);
        let whole = FULL_MODULE.to_owned();
        enter(&mut table, &whole);
        let mut router = Router { table, previous: None };
        let ghost start = router@;
        let mut i: usize = 0;
        while i < pass_dumps.len()
            invariant
                i <= pass_dumps.len(),
                dumps == pass_dumps.deep_view(),
                start == routing_start(register(registered(dumps), FULL_MODULE@)),
                associate_dumps(start, dumps.take(i as int)) == Ok::<Routing, PassDumpErrorView>(
                    router@,
                ),
            decreases pass_dumps.len() - i,
        {
            assert(dumps.take(i + 1).drop_last() =~= dumps.take(i as int));
            assert(dumps.take(i + 1).last() == pass_dumps[i as int]@);
            match router.associate(&pass_dumps[i]) {
                Ok(next) => {
                    router = next;
                },
                Err(e) => {
                    proof {
                        lemma_associate_dumps_fails(start, dumps, i + 1);
                    }
                    return Err(e);
                },
            }
            i += 1;
        }
        assert(dumps.take(pass_dumps.len() as int) =~= dumps);
        Ok(router.table)
    }
}

/// Gives `name` an empty list in `table`, unless it has an entry.
pub fn enter(table: &mut PassDumpsByFunction, name: &String)
    ensures
        final(table).deep_view() == register(old(table).deep_view(), name@),
{
    let ghost before = table.deep_view();
    match find_name(table, name) {
        Some(_) => {},
        None => {
            let list: Vec<PassDump> = Vec::new();
            assert(list.deep_view() =~= Seq::empty());
            table.push((name.clone(), list));
            assert(table.deep_view() =~= before.push((name@, Seq::empty())));
        },
    }
}

/// Once a function of a section is refused, the section is refused with it.
pub proof fn lemma_route_functions_fails(
    routing: Routing,
    dump: SplitPassDumpView,
    k: int,
    n: int,
)
    requires
        0 <= k <= n,
        route_functions(routing, dump, k) is Err,
    ensures
        route_functions(routing, dump, n) == route_functions(routing, dump, k),
    decreases n - k,
{
    if k < n {
        lemma_route_functions_fails(routing, dump, k, n - 1);
    }
}

/// Once a section is refused, the transcript is refused with it.
pub proof fn lemma_route_dumps_fails(dumps: Seq<SplitPassDumpView>, n: int)
    requires
        0 <= n <= dumps.len(),
        route_dumps(dumps.take(n)) is Err,
    ensures
        route_dumps(dumps) == route_dumps(dumps.take(n)),
    decreases dumps.len() - n,
{
    if n == dumps.len() {
        assert(dumps.take(n) =~= dumps);
    } else {
        assert(dumps.drop_last().take(n) =~= dumps.take(n));
        lemma_route_dumps_fails(dumps.drop_last(), n);
    }
}

/// Once a section of a module-wide transcript is refused, the transcript is
/// refused with it.
pub proof fn lemma_associate_dumps_fails(start: Routing, dumps: Seq<PassDumpView>, n: int)
    requires
        0 <= n <= dumps.len(),
        associate_dumps(start, dumps.take(n)) is Err,
    ensures
        associate_dumps(start, dumps) == associate_dumps(start, dumps.take(n)),
    decreases dumps.len() - n,
{
    if n == dumps.len() {
        assert(dumps.take(n) =~= dumps);
    } else {
        assert(dumps.drop_last().take(n) =~= dumps.take(n));
        lemma_associate_dumps_fails(start, dumps.drop_last(), n);
    }
}

} // verus!
