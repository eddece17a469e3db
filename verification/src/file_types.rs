//! Which files a search looks at: file types and globs. The `ignore` crate knows both.
use ignore::overrides::{Override, OverrideBuilder};
use ignore::types::{Types, TypesBuilder};
use vstd::prelude::*;

use crate::cli::Cli;
use crate::lines::string_views;

verus! {

/// A collection of file types and of requests for some of them, in the `ignore` crate.
#[verifier::external_type_specification]
#[verifier::external_body]
pub struct ExTypesBuilder(ignore::types::TypesBuilder);

/// A matcher for file types, in the `ignore` crate.
#[verifier::external_type_specification]
#[verifier::external_body]
pub struct ExTypes(ignore::types::Types);

/// A collection of globs, in the `ignore` crate.
#[verifier::external_type_specification]
#[verifier::external_body]
pub struct ExOverrideBuilder(ignore::overrides::OverrideBuilder);

/// A matcher for globs, in the `ignore` crate.
#[verifier::external_type_specification]
#[verifier::external_body]
pub struct ExOverride(ignore::overrides::Override);

/// What the `ignore` crate finds wrong with a request.
#[verifier::external_type_specification]
#[verifier::external_body]
pub struct ExIgnoreError(ignore::Error);

/// The file types that a collection defines, each with its globs.
pub uninterp spec fn types_defined(tb: TypesBuilder) -> Seq<(Seq<char>, Seq<Seq<char>>)>;

/// The requests that a collection was handed, in order: a type to select, or one to leave out.
pub uninterp spec fn types_asked(tb: TypesBuilder) -> Seq<(bool, Seq<char>)>;

/// The definitions and the requests that a matcher for file types was made from.
pub uninterp spec fn types_source(types: Types) -> (
    Seq<(Seq<char>, Seq<Seq<char>>)>,
    Seq<(bool, Seq<char>)>,
);

/// Definitions of file types together with those that come with the `ignore` crate.
pub uninterp spec fn with_default_types(defined: Seq<(Seq<char>, Seq<Seq<char>>)>) -> Seq<
    (Seq<char>, Seq<Seq<char>>),
>;

/// Where a collection of globs is rooted, and the globs that it accepted, in order.
pub uninterp spec fn globs_source(ob: OverrideBuilder) -> (Seq<char>, Seq<Seq<char>>);

/// A collection of globs tells case apart and insists on closed brackets, and has done so from
/// the start.
pub uninterp spec fn globs_strict(ob: OverrideBuilder) -> bool;

/// A glob that can be read, with case told apart and brackets closed.
pub uninterp spec fn glob_reads(glob: Seq<char>) -> bool;

/// The root and the globs that a matcher for globs was made from.
pub uninterp spec fn override_source(matcher: Override) -> (Seq<char>, Seq<Seq<char>>);

/// A letter of the Latin alphabet, or a digit.
pub open spec fn is_plain(c: char) -> bool {
    'a' <= c <= 'z' || 'A' <= c <= 'Z' || '0' <= c <= '9'
}

/// A glob that asks for a file extension, such as `*.kt`.
pub open spec fn is_extension(glob: Seq<char>) -> bool {
    &&& glob.len() > 2
    &&& glob[0] == '*'
    &&& glob[1] == '.'
    &&& forall|i: int| 2 <= i < glob.len() ==> is_plain(#[trigger] glob[i])
}

/// Every one of these globs asks for a file extension.
pub open spec fn only_extensions(globs: Seq<Seq<char>>) -> bool {
    forall|i: int| 0 <= i < globs.len() ==> is_extension(#[trigger] globs[i])
}

/// Every request is for a type that is defined, or for all of them.
pub open spec fn all_defined(
    defined: Seq<(Seq<char>, Seq<Seq<char>>)>,
    asked: Seq<(bool, Seq<char>)>,
) -> bool {
    forall|i: int|
        0 <= i < asked.len() ==> (#[trigger] asked[i]).1 == "all"@ || is_defined(
            defined,
            asked[i].1,
        )
}

/// There is a file type of this name.
pub open spec fn is_defined(defined: Seq<(Seq<char>, Seq<Seq<char>>)>, name: Seq<char>) -> bool {
    exists|i: int| 0 <= i < defined.len() && (#[trigger] defined[i]).0 == name
}

/// A few globs of modest length.
pub open spec fn modest_globs(globs: Seq<Seq<char>>) -> bool {
    globs.len() <= 64 && forall|i: int| 0 <= i < globs.len() ==> (#[trigger] globs[i]).len() <= 100
}

/// Calls `ignore::types::TypesBuilder::new`: no definitions and no requests.
#[verifier::external_body]
fn new_types() -> (r: TypesBuilder)
    ensures
        types_defined(r) == Seq::<(Seq<char>, Seq<Seq<char>>)>::empty(),
        types_asked(r) == Seq::<(bool, Seq<char>)>::empty(),
{
    TypesBuilder::new()
}

/// Calls `ignore::types::TypesBuilder::add_defaults`: the definitions that come with the crate
/// are added, and there are still no requests. A request for all types is one for those that are
/// defined when it is made, so the definitions come first.
#[verifier::external_body]
fn add_default_types(tb: &mut TypesBuilder)
    requires
        types_asked(*old(tb)).len() == 0,
    ensures
        types_defined(*final(tb)) == with_default_types(types_defined(*old(tb))),
        types_asked(*final(tb)) == types_asked(*old(tb)),
{
    tb.add_defaults();
}

/// Calls `ignore::types::TypesBuilder::select`: one more request, and the definitions stay.
#[verifier::external_body]
fn select_type(tb: &mut TypesBuilder, name: &str)
    ensures
        types_defined(*final(tb)) == types_defined(*old(tb)),
        types_asked(*final(tb)) == types_asked(*old(tb)).push((true, name@)),
{
    tb.select(name);
}

/// Calls `ignore::types::TypesBuilder::negate`: one more request, and the definitions stay.
#[verifier::external_body]
fn negate_type(tb: &mut TypesBuilder, name: &str)
    ensures
        types_defined(*final(tb)) == types_defined(*old(tb)),
        types_asked(*final(tb)) == types_asked(*old(tb)).push((false, name@)),
{
    tb.negate(name);
}

/// Calls `ignore::types::TypesBuilder::build`: a matcher is made from all that was collected,
/// and there is none where a request is for a type that is not defined. There is one where the
/// definitions are those that come with the crate, every request is for one of them, and none is
/// made twice: the globs of these definitions are fixed, all of them read, and together they take
/// up far less memory than compiled globs may. For other definitions, and for requests without
/// end, that there is one is left open: it rests on that limit.
#[verifier::external_body]
fn finish_types(tb: &TypesBuilder) -> (r: Result<Types, ignore::Error>)
    ensures
        r matches Ok(t) ==> types_source(t) == (types_defined(*tb), types_asked(*tb))
            && all_defined(types_defined(*tb), types_asked(*tb)),
        types_defined(*tb) == default_types() && all_defined(types_defined(*tb), types_asked(*tb))
            && types_asked(*tb).no_duplicates() ==> r is Ok,
{
    tb.build()
}

/// Calls `ignore::types::TypesBuilder::definitions`: the name and the globs of each definition.
#[verifier::external_body]
fn type_definitions(tb: &TypesBuilder) -> (r: Vec<(String, Vec<String>)>)
    ensures
        definition_views(r@) == types_defined(*tb),
{
    tb.definitions().iter().map(|d| (d.name().to_string(), d.globs().to_vec())).collect()
}

/// Calls `ignore::overrides::OverrideBuilder::new`: no globs, rooted at `root`, and strict.
#[verifier::external_body]
fn new_globs(root: &str) -> (r: OverrideBuilder)
    ensures
        globs_source(r) == (root@, Seq::<Seq<char>>::empty()),
        globs_strict(r),
{
    OverrideBuilder::new(root)
}

/// Calls `ignore::overrides::OverrideBuilder::add`: a glob that reads is accepted, and any
/// other changes nothing. A glob that asks for a file extension reads.
#[verifier::external_body]
fn add_glob(ob: &mut OverrideBuilder, glob: &str) -> (r: Result<(), ignore::Error>)
    requires
        globs_strict(*old(ob)),
    ensures
        globs_strict(*final(ob)),
        r is Ok == glob_reads(glob@),
        is_extension(glob@) ==> r is Ok,
        globs_source(*final(ob)) == if r is Ok {
            (globs_source(*old(ob)).0, globs_source(*old(ob)).1.push(glob@))
        } else {
            globs_source(*old(ob))
        },
{
    ob.add(glob)?;
    Ok(())
}

/// Calls `ignore::overrides::OverrideBuilder::build`: a matcher is made from the root and the
/// accepted globs. There is one where no glob was accepted, and where all that were ask for
/// file extensions: these are looked up and not compiled. There is one, too, for a few globs of
/// modest length: what is compiled for a glob grows with its length, and so much stays far below
/// the memory that compiled globs may take up. Whether there is one for other globs is left open:
/// it rests on that limit.
#[verifier::external_body]
fn finish_globs(ob: &OverrideBuilder) -> (r: Result<Override, ignore::Error>)
    requires
        globs_strict(*ob),
    ensures
        r matches Ok(o) ==> override_source(o) == globs_source(*ob),
        only_extensions(globs_source(*ob).1) ==> r is Ok,
        modest_globs(globs_source(*ob).1) ==> r is Ok,
{
    ob.build()
}

// File types.

/// Requests for file types that cannot be met.
pub struct TypesError {
    pub cause: ignore::Error,
}

impl TypesError {
    /// What the user is told.
    pub fn message(&self) -> (r: String)
        ensures
            r@ == "invalid file type (see --type-list for available types)"@,
    {
        "invalid file type (see --type-list for available types)".to_owned()
    }
}

/// Requests of one kind.
pub open spec fn requests(select: bool, names: Seq<Seq<char>>) -> Seq<(bool, Seq<char>)> {
    Seq::new(names.len(), |i: int| (select, names[i]))
}

/// The file types that come with the `ignore` crate.
pub open spec fn default_types() -> Seq<(Seq<char>, Seq<Seq<char>>)> {
    with_default_types(seq![])
}

/// The names without those that occur before.
pub open spec fn distinct(names: Seq<Seq<char>>) -> Seq<Seq<char>>
    decreases names.len(),
{
    if names.len() == 0 {
        seq![]
    } else if distinct(names.drop_last()).contains(names.last()) {
        distinct(names.drop_last())
    } else {
        distinct(names.drop_last()).push(names.last())
    }
}

/// The requests of a run: first the types to select, then those to leave out, each once.
pub open spec fn types_wanted(cli: Cli) -> Seq<(bool, Seq<char>)> {
    requests(true, distinct(string_views(cli.type_matches@))) + requests(
        false,
        distinct(string_views(cli.type_not@)),
    )
}

/// There is a file type of this name, or it stands for all of them.
pub open spec fn is_known(name: Seq<char>) -> bool {
    name == "all"@ || is_defined(default_types(), name)
}

/// The file types that the run asks for are all known.
pub open spec fn types_known(cli: Cli) -> bool {
    &&& forall|i: int|
        0 <= i < cli.type_matches@.len() ==> is_known(#[trigger] cli.type_matches@[i]@)
    &&& forall|i: int| 0 <= i < cli.type_not@.len() ==> is_known(#[trigger] cli.type_not@[i]@)
}

/// The run asks for file types.
pub open spec fn asks_for_types(cli: Cli) -> bool {
    cli.type_matches@.len() > 0 || cli.type_not@.len() > 0
}

/// No name is left out, none is made up, and none is there twice.
proof fn lemma_distinct(names: Seq<Seq<char>>)
    ensures
        distinct(names).no_duplicates(),
        forall|name: Seq<char>| #[trigger] distinct(names).contains(name) <==> names.contains(name),
    decreases names.len(),
{
    if names.len() > 0 {
        let before = names.drop_last();
        lemma_distinct(before);
        assert forall|name: Seq<char>| #[trigger]
            distinct(names).contains(name) <==> names.contains(name) by {
            assert(names == before.push(names.last()));
            if names.contains(name) && name != names.last() {
                let i = choose|i: int| 0 <= i < names.len() && names[i] == name;
                assert(before[i] == name);
            }
            if before.contains(name) {
                let i = choose|i: int| 0 <= i < before.len() && before[i] == name;
                assert(names[i] == name);
            }
            assert(names.contains(names.last()));
            if !before.contains(names.last()) {
                let d = distinct(before);
                assert(distinct(names) == d.push(names.last()));
                assert(distinct(names)[d.len() as int] == names.last());
                if d.contains(name) {
                    let i = choose|i: int| 0 <= i < d.len() && d[i] == name;
                    assert(distinct(names)[i] == name);
                }
            }
        }
    }
}

/// What is handed over is known where all that the run asks for is, and nothing twice.
proof fn lemma_wanted(cli: Cli)
    ensures
        types_wanted(cli).no_duplicates(),
        types_known(cli) <==> all_defined(default_types(), types_wanted(cli)),
        asks_for_types(cli) <==> types_wanted(cli).len() > 0,
{
    let yes = string_views(cli.type_matches@);
    let no = string_views(cli.type_not@);
    let wanted = types_wanted(cli);
    lemma_distinct(yes);
    lemma_distinct(no);
    if types_known(cli) {
        assert forall|i: int| 0 <= i < wanted.len() implies is_known(#[trigger] wanted[i].1) by {
            if i < distinct(yes).len() {
                assert(distinct(yes).contains(wanted[i].1));
            } else {
                assert(distinct(no).contains(wanted[i].1));
            }
        }
    }
    if all_defined(default_types(), wanted) {
        assert forall|i: int| 0 <= i < cli.type_matches@.len() implies is_known(
            #[trigger] cli.type_matches@[i]@,
        ) by {
            assert(yes.contains(yes[i]) && distinct(yes).contains(yes[i]));
            let k = choose|k: int| 0 <= k < distinct(yes).len() && distinct(yes)[k] == yes[i];
            assert(wanted[k].1 == yes[i]);
        }
        assert forall|i: int| 0 <= i < cli.type_not@.len() implies is_known(
            #[trigger] cli.type_not@[i]@,
        ) by {
            assert(no.contains(no[i]) && distinct(no).contains(no[i]));
            let k = choose|k: int| 0 <= k < distinct(no).len() && distinct(no)[k] == no[i];
            assert(wanted[distinct(yes).len() + k].1 == no[i]);
        }
    }
    if yes.len() > 0 {
        assert(distinct(yes).contains(yes[0]) <==> yes.contains(yes[0]));
    }
    if no.len() > 0 {
        assert(distinct(no).contains(no[0]) <==> no.contains(no[0]));
    }
}

/// One of the names is this one.
fn has_name(names: &Vec<String>, name: &String) -> (r: bool)
    ensures
        r == string_views(names@).contains(name@),
{
    let mut i: usize = 0;
    while i < names.len()
        invariant
            i <= names@.len(),
            forall|j: int| 0 <= j < i ==> (#[trigger] names@[j])@ != name@,
        decreases names@.len() - i,
    {
        if names[i] == *name {
            proof {
                assert(string_views(names@)[i as int] == name@);
            }
            return true;
        }
        i = i + 1;
    }
    false
}

/// The names without those that occur before.
fn each_once(names: &Vec<String>) -> (r: Vec<String>)
    ensures
        string_views(r@) == distinct(string_views(names@)),
{
    let ghost all = string_views(names@);
    let mut out: Vec<String> = Vec::new();
    let mut i: usize = 0;
    proof {
        assert(string_views(out@) == distinct(all.take(0)));
    }
    while i < names.len()
        invariant
            i <= names@.len(),
            all == string_views(names@),
            string_views(out@) == distinct(all.take(i as int)),
        decreases names@.len() - i,
    {
        let ghost before = string_views(out@);
        proof {
            assert(all.take(i + 1).drop_last() == all.take(i as int));
        }
        if !has_name(&out, &names[i]) {
            out.push(names[i].clone());
            proof {
                assert(string_views(out@) == before.push(all[i as int]));
            }
        }
        i = i + 1;
    }
    proof {
        assert(all.take(all.len() as int) == all);
    }
    out
}

/// Collects the file types that the run asks for, in the collection of those that come with the
/// `ignore` crate. To ask for one again in the same way adds nothing.
pub fn collect_types(cli: &Cli) -> (r: TypesBuilder)
    ensures
        types_defined(r) == default_types(),
        types_asked(r) == types_wanted(*cli),
{
    let selected = each_once(&cli.type_matches);
    let left_out = each_once(&cli.type_not);
    let ghost yes = requests(true, string_views(selected@));
    let ghost no = requests(false, string_views(left_out@));
    let mut tb = new_types();
    add_default_types(&mut tb);
    let mut i: usize = 0;
    proof {
        assert(yes.take(0) == Seq::<(bool, Seq<char>)>::empty());
    }
    while i < selected.len()
        invariant
            i <= selected@.len(),
            yes == requests(true, string_views(selected@)),
            types_defined(tb) == default_types(),
            types_asked(tb) == yes.take(i as int),
        decreases selected@.len() - i,
    {
        select_type(&mut tb, selected[i].as_str());
        proof {
            assert(yes.take(i + 1) == yes.take(i as int).push(yes[i as int]));
        }
        i = i + 1;
    }
    let mut j: usize = 0;
    proof {
        assert(yes.take(yes.len() as int) == yes);
        assert(yes + no.take(0) == yes);
    }
    while j < left_out.len()
        invariant
            j <= left_out@.len(),
            no == requests(false, string_views(left_out@)),
            types_defined(tb) == default_types(),
            types_asked(tb) == yes + no.take(j as int),
        decreases left_out@.len() - j,
    {
        negate_type(&mut tb, left_out[j].as_str());
        proof {
            assert(yes + no.take(j + 1) == (yes + no.take(j as int)).push(no[j as int]));
        }
        j = j + 1;
    }
    proof {
        assert(no.take(no.len() as int) == no);
    }
    tb
}

/// The matcher for the file types that the run asks for, if it asks for any. There is none if and
/// only if one of them is not known.
pub fn build_types(cli: &Cli) -> (r: Result<Option<Types>, TypesError>)
    ensures
        r is Err <==> !types_known(*cli),
        r matches Ok(None) <==> !asks_for_types(*cli),
        r matches Ok(Some(t)) ==> types_source(t) == (default_types(), types_wanted(*cli)),
{
    proof {
        lemma_wanted(*cli);
    }
    if cli.type_matches.len() == 0 && cli.type_not.len() == 0 {
        return Ok(None);
    }
    types_built(finish_types(&collect_types(cli)))
}

/// What comes of building a matcher for file types.
pub fn types_built(outcome: Result<Types, ignore::Error>) -> (r: Result<
    Option<Types>,
    TypesError,
>)
    ensures
        match outcome {
            Ok(t) => r == Ok::<Option<Types>, TypesError>(Some(t)),
            Err(cause) => r == Err::<Option<Types>, TypesError>(TypesError { cause }),
        },
{
    match outcome {
        Ok(t) => Ok(Some(t)),
        Err(cause) => Err(TypesError { cause }),
    }
}

/// Definitions as text.
pub open spec fn definition_views(list: Seq<(String, Vec<String>)>) -> Seq<
    (Seq<char>, Seq<Seq<char>>),
> {
    Seq::new(list.len(), |i: int| (list[i].0@, string_views(list[i].1@)))
}

/// The parts with `sep` between them.
pub open spec fn joined(parts: Seq<Seq<char>>, sep: Seq<char>) -> Seq<char>
    decreases parts.len(),
{
    if parts.len() == 0 {
        seq![]
    } else if parts.len() == 1 {
        parts[0]
    } else {
        joined(parts.drop_last(), sep) + sep + parts.last()
    }
}

/// One line of the list of file types.
pub open spec fn type_line(name: Seq<char>, globs: Seq<Seq<char>>) -> Seq<char> {
    name + ": "@ + joined(globs, ", "@)
}

/// The list of file types.
pub open spec fn type_lines(defined: Seq<(Seq<char>, Seq<Seq<char>>)>) -> Seq<Seq<char>> {
    Seq::new(defined.len(), |i: int| type_line(defined[i].0, defined[i].1))
}

/// One line of the list of file types.
pub fn format_type(name: &str, globs: &Vec<String>) -> (r: String)
    ensures
        r@ == type_line(name@, string_views(globs@)),
{
    let ghost parts = string_views(globs@);
    let ghost sep = ", "@;
    let mut list = String::new();
    let mut i: usize = 0;
    proof {
        assert(parts.take(0) == Seq::<Seq<char>>::empty());
    }
    while i < globs.len()
        invariant
            i <= globs@.len(),
            parts == string_views(globs@),
            sep == ", "@,
            list@ == joined(parts.take(i as int), sep),
        decreases globs@.len() - i,
    {
        let ghost before = list@;
        if i > 0 {
            list.append(", ");
        }
        list.append(globs[i].as_str());
        proof {
            assert(parts.take(i + 1).drop_last() == parts.take(i as int));
            if i == 0 {
                assert(list@ == parts[0]);
            }
        }
        i = i + 1;
    }
    proof {
        assert(parts.take(parts.len() as int) == parts);
    }
    let mut out = name.to_owned();
    out.append(": ");
    out.append(list.as_str());
    out
}

/// The list of file types for the given definitions.
pub fn list_types(defined: &Vec<(String, Vec<String>)>) -> (r: Vec<String>)
    ensures
        string_views(r@) == type_lines(definition_views(defined@)),
{
    let ghost want = type_lines(definition_views(defined@));
    let mut out: Vec<String> = Vec::new();
    let mut i: usize = 0;
    while i < defined.len()
        invariant
            i <= defined@.len(),
            want == type_lines(definition_views(defined@)),
            out@.len() == i,
            forall|j: int| 0 <= j < i ==> (#[trigger] out@[j])@ == want[j],
        decreases defined@.len() - i,
    {
        out.push(format_type(defined[i].0.as_str(), &defined[i].1));
        i = i + 1;
    }
    proof {
        assert(string_views(out@) == want);
    }
    out
}

/// The list of all file types that a run can ask for.
pub fn print_type_list() -> (r: Vec<String>)
    ensures
        string_views(r@) == type_lines(default_types()),
{
    let mut tb = new_types();
    add_default_types(&mut tb);
    list_types(&type_definitions(&tb))
}

// Globs.

/// Those of the globs that can be read, in order.
pub open spec fn readable(globs: Seq<Seq<char>>) -> Seq<Seq<char>>
    decreases globs.len(),
{
    if globs.len() == 0 {
        seq![]
    } else if glob_reads(globs.last()) {
        readable(globs.drop_last()).push(globs.last())
    } else {
        readable(globs.drop_last())
    }
}

/// Collects the globs that can be read; the others are passed over.
pub fn collect_globs(globs: &Vec<String>) -> (r: OverrideBuilder)
    ensures
        globs_source(r) == ("."@, readable(string_views(globs@))),
        globs_strict(r),
        only_extensions(string_views(globs@)) ==> readable(string_views(globs@)) == string_views(
            globs@,
        ),
{
    let ghost all = string_views(globs@);
    let mut ob = new_globs(".");
    let mut i: usize = 0;
    proof {
        assert(all.take(0) == Seq::<Seq<char>>::empty());
    }
    while i < globs.len()
        invariant
            i <= globs@.len(),
            all == string_views(globs@),
            globs_strict(ob),
            globs_source(ob) == ("."@, readable(all.take(i as int))),
            only_extensions(all) ==> readable(all.take(i as int)) == all.take(i as int),
        decreases globs@.len() - i,
    {
        let _outcome = add_glob(&mut ob, globs[i].as_str());
        proof {
            assert(all.take(i + 1).drop_last() == all.take(i as int));
            if only_extensions(all) {
                assert(is_extension(all[i as int]));
                assert(all.take(i as int).push(all[i as int]) == all.take(i + 1));
            }
        }
        i = i + 1;
    }
    proof {
        assert(all.take(all.len() as int) == all);
    }
    ob
}

/// A list of globs without those that cannot be read is still modest.
proof fn lemma_readable_modest(globs: Seq<Seq<char>>)
    requires
        modest_globs(globs),
    ensures
        modest_globs(readable(globs)),
        readable(globs).len() <= globs.len(),
    decreases globs.len(),
{
    if globs.len() > 0 {
        assert forall|i: int| 0 <= i < globs.drop_last().len() implies (
        #[trigger] globs.drop_last()[i]).len() <= 100 by {
            assert(globs[i].len() <= 100);
        }
        lemma_readable_modest(globs.drop_last());
    }
}

/// There is a matcher for these globs: they are a few of modest length, or all that can be read
/// ask for file extensions.
pub open spec fn globs_can_be_had(globs: Seq<Seq<char>>) -> bool {
    modest_globs(globs) || only_extensions(readable(globs))
}

/// The matcher for the globs of a run, if there are any: a glob that cannot be read is passed
/// over. There is one for a few globs of modest length, and where the globs that can be read ask
/// for file extensions only, or there are none; a glob that asks for a file extension can be
/// read.
pub fn build_overrides(globs: &Vec<String>) -> (r: Option<Override>)
    ensures
        globs@.len() == 0 ==> r is None,
        r matches Some(o) ==> override_source(o) == ("."@, readable(string_views(globs@))),
        globs@.len() > 0 && globs_can_be_had(string_views(globs@)) ==> r is Some,
        globs@.len() > 0 && only_extensions(string_views(globs@)) ==> (r matches Some(o)
            && override_source(o) == ("."@, string_views(globs@))),
{
    if globs.len() == 0 {
        return None;
    }
    proof {
        if modest_globs(string_views(globs@)) {
            lemma_readable_modest(string_views(globs@));
        }
    }
    overrides_built(finish_globs(&collect_globs(globs)))
}

/// What comes of building a matcher for globs: where there is none, the search does without.
pub fn overrides_built(outcome: Result<Override, ignore::Error>) -> (r: Option<Override>)
    ensures
        match outcome {
            Ok(o) => r == Some(o),
            Err(_) => r is None,
        },
{
    match outcome {
        Ok(o) => Some(o),
        Err(_cause) => None,
    }
}

// What holds of file types and globs.

/// A name of the two lists.
pub open spec fn is_named(names: Seq<String>, name: Seq<char>) -> bool {
    exists|i: int| 0 <= i < names.len() && (#[trigger] names[i])@ == name
}

/// Every file type that the run names is asked for in the way in which it is named, none is asked
/// for twice in the same way, and nothing else is asked for; what is to be left out comes last.
pub proof fn law_types_are_asked_for_as_named(cli: Cli)
    ensures
        forall|name: Seq<char>|
            #![trigger types_wanted(cli).contains((true, name))]
            types_wanted(cli).contains((true, name)) <==> is_named(cli.type_matches@, name),
        forall|name: Seq<char>|
            #![trigger types_wanted(cli).contains((false, name))]
            types_wanted(cli).contains((false, name)) <==> is_named(cli.type_not@, name),
        forall|i: int, j: int|
            #![trigger types_wanted(cli)[i], types_wanted(cli)[j]]
            0 <= i < j < types_wanted(cli).len() ==> {
                &&& types_wanted(cli)[i] != types_wanted(cli)[j]
                &&& types_wanted(cli)[j].0 ==> types_wanted(cli)[i].0
            },
{
    let yes = string_views(cli.type_matches@);
    let no = string_views(cli.type_not@);
    let wanted = types_wanted(cli);
    let n = distinct(yes).len() as int;
    lemma_wanted(cli);
    lemma_distinct(yes);
    lemma_distinct(no);
    assert forall|name: Seq<char>|
        #![trigger types_wanted(cli).contains((true, name))]
        types_wanted(cli).contains((true, name)) <==> is_named(cli.type_matches@, name) by {
        assert(distinct(yes).contains(name) <==> yes.contains(name));
        if wanted.contains((true, name)) {
            let i = choose|i: int| 0 <= i < wanted.len() && wanted[i] == (true, name);
            assert(distinct(yes)[i] == name);
            let k = choose|k: int| 0 <= k < yes.len() && yes[k] == name;
            assert(cli.type_matches@[k]@ == name);
        }
        if is_named(cli.type_matches@, name) {
            let k = choose|k: int|
                0 <= k < cli.type_matches@.len() && (#[trigger] cli.type_matches@[k])@ == name;
            assert(yes[k] == name);
            let i = choose|i: int| 0 <= i < distinct(yes).len() && distinct(yes)[i] == name;
            assert(wanted[i] == (true, name));
        }
    }
    assert forall|name: Seq<char>|
        #![trigger types_wanted(cli).contains((false, name))]
        types_wanted(cli).contains((false, name)) <==> is_named(cli.type_not@, name) by {
        assert(distinct(no).contains(name) <==> no.contains(name));
        if wanted.contains((false, name)) {
            let i = choose|i: int| 0 <= i < wanted.len() && wanted[i] == (false, name);
            assert(distinct(no)[i - n] == name);
            let k = choose|k: int| 0 <= k < no.len() && no[k] == name;
            assert(cli.type_not@[k]@ == name);
        }
        if is_named(cli.type_not@, name) {
            let k = choose|k: int|
                0 <= k < cli.type_not@.len() && (#[trigger] cli.type_not@[k])@ == name;
            assert(no[k] == name);
            let i = choose|i: int| 0 <= i < distinct(no).len() && distinct(no)[i] == name;
            assert(wanted[n + i] == (false, name));
        }
    }
}

/// The types of a run are known if and only if each name is that of a type that comes with the
/// `ignore` crate, or the word for all of them.
pub proof fn law_known_types_have_a_definition(cli: Cli)
    ensures
        types_known(cli) <==> forall|name: Seq<char>|
            is_named(cli.type_matches@, name) || is_named(cli.type_not@, name)
                ==> #[trigger] is_known(name),
        forall|name: Seq<char>| #[trigger]
            is_known(name) <==> name == seq!['a', 'l', 'l'] || exists|i: int|
                0 <= i < default_types().len() && (#[trigger] default_types()[i]).0 == name,
{
    reveal_strlit("all");
    assert("all"@ == seq!['a', 'l', 'l']);
    let all_known = forall|name: Seq<char>|
        is_named(cli.type_matches@, name) || is_named(cli.type_not@, name) ==> #[trigger] is_known(
            name,
        );
    if types_known(cli) {
        assert forall|name: Seq<char>|
            is_named(cli.type_matches@, name) || is_named(cli.type_not@, name) implies
            #[trigger] is_known(name) by {
            if is_named(cli.type_matches@, name) {
                let k = choose|k: int|
                    0 <= k < cli.type_matches@.len() && (#[trigger] cli.type_matches@[k])@ == name;
                assert(is_known(cli.type_matches@[k]@));
            } else {
                let k = choose|k: int|
                    0 <= k < cli.type_not@.len() && (#[trigger] cli.type_not@[k])@ == name;
                assert(is_known(cli.type_not@[k]@));
            }
        }
    }
    if all_known {
        assert forall|i: int| 0 <= i < cli.type_matches@.len() implies is_known(
            #[trigger] cli.type_matches@[i]@,
        ) by {
            assert(is_named(cli.type_matches@, cli.type_matches@[i]@));
        }
        assert forall|i: int| 0 <= i < cli.type_not@.len() implies is_known(
            #[trigger] cli.type_not@[i]@,
        ) by {
            assert(is_named(cli.type_not@, cli.type_not@[i]@));
        }
    }
}

/// The list of file types has one line for each type: its name, a colon, and its globs with commas
/// between them.
pub proof fn law_each_file_type_has_its_line(
    defined: Seq<(Seq<char>, Seq<Seq<char>>)>,
    parts: Seq<Seq<char>>,
    part: Seq<char>,
)
    ensures
        type_lines(defined).len() == defined.len(),
        forall|i: int|
            0 <= i < defined.len() ==> #[trigger] type_lines(defined)[i] == defined[i].0 + ": "@
                + joined(defined[i].1, ", "@),
        joined(Seq::<Seq<char>>::empty(), ", "@).len() == 0,
        joined(seq![part], ", "@) == part,
        parts.len() > 0 ==> joined(parts.push(part), ", "@) == joined(parts, ", "@) + ", "@ + part,
{
    assert(parts.push(part).drop_last() == parts);
}

/// Of a list of globs, those that can be read are kept, in their order, and no others.
pub proof fn law_readable_globs_are_kept(globs: Seq<Seq<char>>, glob: Seq<char>)
    ensures
        readable(Seq::<Seq<char>>::empty()).len() == 0,
        readable(globs.push(glob)) == if glob_reads(glob) {
            readable(globs).push(glob)
        } else {
            readable(globs)
        },
{
    assert(globs.push(glob).drop_last() == globs);
}

/// A run asks for file types as soon as it names one to select or one to leave out.
pub proof fn law_one_name_asks_for_types(cli: Cli, name: Seq<char>)
    ensures
        is_named(cli.type_matches@, name) || is_named(cli.type_not@, name) ==> asks_for_types(cli),
        asks_for_types(cli) ==> exists|other: Seq<char>|
            is_named(cli.type_matches@, other) || is_named(cli.type_not@, other),
        asks_for_types(cli) <==> types_wanted(cli).len() > 0,
{
    lemma_wanted(cli);
    if cli.type_matches@.len() > 0 {
        assert(is_named(cli.type_matches@, cli.type_matches@[0]@));
    } else if cli.type_not@.len() > 0 {
        assert(is_named(cli.type_not@, cli.type_not@[0]@));
    }
}

/// A few globs of modest length have a matcher, and so has any number of globs that ask for a file
/// extension of letters and digits.
pub proof fn law_few_globs_have_a_matcher(globs: Seq<Seq<char>>, glob: Seq<char>)
    ensures
        globs.len() <= 64 && (forall|i: int|
            0 <= i < globs.len() ==> (#[trigger] globs[i]).len() <= 100) ==> globs_can_be_had(
            globs,
        ),
        is_extension(glob) <==> {
            &&& glob.len() > 2
            &&& glob[0] == '*'
            &&& glob[1] == '.'
            &&& forall|i: int|
                2 <= i < glob.len() ==> {
                    let c = #[trigger] glob[i];
                    '0' <= c <= '9' || 'A' <= c <= 'Z' || 'a' <= c <= 'z'
                }
        },
        only_extensions(globs) <==> forall|i: int|
            0 <= i < globs.len() ==> #[trigger] is_extension(globs[i]),
{
    assert(forall|i: int| 2 <= i < glob.len() ==> is_plain(#[trigger] glob[i]) == {
        let c = glob[i];
        '0' <= c <= '9' || 'A' <= c <= 'Z' || 'a' <= c <= 'z'
    });
}

} // verus!
