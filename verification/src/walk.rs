//! Where a search looks, for the `ignore` crate to walk.
use ignore::overrides::Override;
use ignore::types::Types;
use ignore::WalkBuilder;
use std::path::PathBuf;
use vstd::prelude::*;

use crate::cli::{path_views, Cli, SearchPath, SearchPathView};
use crate::edit::path_shown;
use crate::file_types::{
    asks_for_types, build_overrides, build_types, default_types, globs_can_be_had, only_extensions,
    override_source, readable, types_known, types_source, types_wanted,
};
use crate::lines::string_views;

verus! {

/// A walk through directories that is about to start, in the `ignore` crate.
#[verifier::external_type_specification]
#[verifier::external_body]
pub struct ExWalkBuilder(ignore::WalkBuilder);

/// The places that a walk starts from, in order.
pub uninterp spec fn walk_places(wb: WalkBuilder) -> Seq<PathBuf>;

/// What a walk heeds: `.gitignore` files, the global one, `.git/info/exclude`, `.ignore` files,
/// and that hidden files are to be passed over, in this order.
pub uninterp spec fn walk_heeds(wb: WalkBuilder) -> (bool, bool, bool, bool, bool);

/// The matcher for globs that a walk was given, if it was given one.
pub uninterp spec fn walk_globs(wb: WalkBuilder) -> Option<Override>;

/// The matcher for file types that a walk was given, if it was given one.
pub uninterp spec fn walk_types(wb: WalkBuilder) -> Option<Types>;

/// The path that a word stands for.
pub uninterp spec fn path_of(word: Seq<char>) -> PathBuf;

/// Calls `PathBuf::from` on a word.
#[verifier::external_body]
fn path_from(word: &str) -> (r: PathBuf)
    ensures
        r == path_of(word@),
{
    PathBuf::from(word)
}

/// Calls `ignore::WalkBuilder::new`: a walk from one place that heeds everything, without
/// matchers.
#[verifier::external_body]
fn new_walk(place: &PathBuf) -> (r: WalkBuilder)
    ensures
        walk_places(r) == seq![*place],
        walk_heeds(r) == (true, true, true, true, true),
        walk_globs(r) is None,
        walk_types(r) is None,
{
    WalkBuilder::new(place)
}

/// Calls `ignore::WalkBuilder::add`: one more place, and the rest stays.
#[verifier::external_body]
fn add_place(wb: &mut WalkBuilder, place: &PathBuf)
    ensures
        walk_places(*final(wb)) == walk_places(*old(wb)).push(*place),
        walk_heeds(*final(wb)) == walk_heeds(*old(wb)),
        walk_globs(*final(wb)) == walk_globs(*old(wb)),
        walk_types(*final(wb)) == walk_types(*old(wb)),
{
    wb.add(place);
}

/// Calls `ignore::WalkBuilder::git_ignore`: whether `.gitignore` files are heeded.
#[verifier::external_body]
fn heed_git_ignore(wb: &mut WalkBuilder, yes: bool)
    ensures
        walk_places(*final(wb)) == walk_places(*old(wb)),
        ({
            let h = walk_heeds(*old(wb));
            walk_heeds(*final(wb)) == (yes, h.1, h.2, h.3, h.4)
        }),
        walk_globs(*final(wb)) == walk_globs(*old(wb)),
        walk_types(*final(wb)) == walk_types(*old(wb)),
{
    wb.git_ignore(yes);
}

/// Calls `ignore::WalkBuilder::git_global`: whether the global `.gitignore` file is heeded.
#[verifier::external_body]
fn heed_git_global(wb: &mut WalkBuilder, yes: bool)
    ensures
        walk_places(*final(wb)) == walk_places(*old(wb)),
        ({
            let h = walk_heeds(*old(wb));
            walk_heeds(*final(wb)) == (h.0, yes, h.2, h.3, h.4)
        }),
        walk_globs(*final(wb)) == walk_globs(*old(wb)),
        walk_types(*final(wb)) == walk_types(*old(wb)),
{
    wb.git_global(yes);
}

/// Calls `ignore::WalkBuilder::git_exclude`: whether `.git/info/exclude` files are heeded.
#[verifier::external_body]
fn heed_git_exclude(wb: &mut WalkBuilder, yes: bool)
    ensures
        walk_places(*final(wb)) == walk_places(*old(wb)),
        ({
            let h = walk_heeds(*old(wb));
            walk_heeds(*final(wb)) == (h.0, h.1, yes, h.3, h.4)
        }),
        walk_globs(*final(wb)) == walk_globs(*old(wb)),
        walk_types(*final(wb)) == walk_types(*old(wb)),
{
    wb.git_exclude(yes);
}

/// Calls `ignore::WalkBuilder::ignore`: whether `.ignore` files are heeded.
#[verifier::external_body]
fn heed_ignore(wb: &mut WalkBuilder, yes: bool)
    ensures
        walk_places(*final(wb)) == walk_places(*old(wb)),
        ({
            let h = walk_heeds(*old(wb));
            walk_heeds(*final(wb)) == (h.0, h.1, h.2, yes, h.4)
        }),
        walk_globs(*final(wb)) == walk_globs(*old(wb)),
        walk_types(*final(wb)) == walk_types(*old(wb)),
{
    wb.ignore(yes);
}

/// Calls `ignore::WalkBuilder::hidden`: whether hidden files are passed over.
#[verifier::external_body]
fn pass_over_hidden(wb: &mut WalkBuilder, yes: bool)
    ensures
        walk_places(*final(wb)) == walk_places(*old(wb)),
        ({
            let h = walk_heeds(*old(wb));
            walk_heeds(*final(wb)) == (h.0, h.1, h.2, h.3, yes)
        }),
        walk_globs(*final(wb)) == walk_globs(*old(wb)),
        walk_types(*final(wb)) == walk_types(*old(wb)),
{
    wb.hidden(yes);
}

/// Calls `ignore::WalkBuilder::overrides`: the walk has this matcher for globs.
#[verifier::external_body]
fn set_globs(wb: &mut WalkBuilder, globs: Override)
    ensures
        walk_places(*final(wb)) == walk_places(*old(wb)),
        walk_heeds(*final(wb)) == walk_heeds(*old(wb)),
        walk_globs(*final(wb)) == Some(globs),
        walk_types(*final(wb)) == walk_types(*old(wb)),
{
    wb.overrides(globs);
}

/// Calls `ignore::WalkBuilder::types`: the walk has this matcher for file types.
#[verifier::external_body]
fn set_types(wb: &mut WalkBuilder, types: Types)
    ensures
        walk_places(*final(wb)) == walk_places(*old(wb)),
        walk_heeds(*final(wb)) == walk_heeds(*old(wb)),
        walk_globs(*final(wb)) == walk_globs(*old(wb)),
        walk_types(*final(wb)) == Some(types),
{
    wb.types(types);
}

/// A place to search as a path.
pub open spec fn place_path(place: SearchPathView) -> PathBuf {
    match place {
        SearchPathView::Given(p) => p,
        SearchPathView::Word(w) => path_of(w),
    }
}

/// Places to search as paths.
pub open spec fn place_paths(places: Seq<SearchPathView>) -> Seq<PathBuf> {
    Seq::new(places.len(), |i: int| place_path(places[i]))
}

/// What a walk heeds: everything, or nothing at all.
pub open spec fn heeds(no_ignore: bool) -> (bool, bool, bool, bool, bool) {
    (!no_ignore, !no_ignore, !no_ignore, !no_ignore, !no_ignore)
}

/// The first place of a walk.
fn first_place(place: &SearchPath) -> (r: WalkBuilder)
    ensures
        walk_places(r) == seq![place_path(place@)],
        walk_heeds(r) == heeds(false),
        walk_globs(r) is None,
        walk_types(r) is None,
{
    match place {
        SearchPath::Given(p) => new_walk(p),
        SearchPath::Word(w) => new_walk(&path_from(w.as_str())),
    }
}

/// One more place of a walk.
fn next_place(wb: &mut WalkBuilder, place: &SearchPath)
    ensures
        walk_places(*final(wb)) == walk_places(*old(wb)).push(place_path(place@)),
        walk_heeds(*final(wb)) == walk_heeds(*old(wb)),
        walk_globs(*final(wb)) == walk_globs(*old(wb)),
        walk_types(*final(wb)) == walk_types(*old(wb)),
{
    match place {
        SearchPath::Given(p) => add_place(wb, p),
        SearchPath::Word(w) => add_place(wb, &path_from(w.as_str())),
    }
}

/// A walk from the places of a run, with the matchers that there are.
pub fn configure_walk(cli: &Cli, globs: Option<Override>, types: Option<Types>) -> (r: WalkBuilder)
    requires
        cli.paths@.len() > 0,
    ensures
        walk_places(r) == place_paths(path_views(cli.paths@)),
        walk_heeds(r) == heeds(cli.no_ignore),
        walk_globs(r) == globs,
        walk_types(r) == types,
{
    let ghost all = place_paths(path_views(cli.paths@));
    let mut wb = first_place(&cli.paths[0]);
    let mut i: usize = 1;
    proof {
        assert(all.take(1) == seq![place_path(cli.paths@[0]@)]);
    }
    while i < cli.paths.len()
        invariant
            1 <= i <= cli.paths@.len(),
            all == place_paths(path_views(cli.paths@)),
            walk_places(wb) == all.take(i as int),
            walk_heeds(wb) == heeds(false),
            walk_globs(wb) is None,
            walk_types(wb) is None,
        decreases cli.paths@.len() - i,
    {
        next_place(&mut wb, &cli.paths[i]);
        proof {
            assert(all.take(i + 1) == all.take(i as int).push(all[i as int]));
        }
        i = i + 1;
    }
    proof {
        assert(all.take(all.len() as int) == all);
    }
    if cli.no_ignore {
        heed_git_ignore(&mut wb, false);
        heed_git_global(&mut wb, false);
        heed_git_exclude(&mut wb, false);
        heed_ignore(&mut wb, false);
        pass_over_hidden(&mut wb, false);
    }
    match globs {
        Some(globs) => set_globs(&mut wb, globs),
        None => {},
    }
    match types {
        Some(types) => set_types(&mut wb, types),
        None => {},
    }
    wb
}

/// The walk of a run: from its places, through the files that its globs and file types let
/// through. Matchers that cannot be made are done without.
pub fn build_walk(cli: &Cli) -> (r: WalkBuilder)
    requires
        cli.paths@.len() > 0,
    ensures
        walk_places(r) == place_paths(path_views(cli.paths@)),
        walk_heeds(r) == heeds(cli.no_ignore),
        cli.globs@.len() == 0 ==> walk_globs(r) is None,
        walk_globs(r) matches Some(o) ==> override_source(o) == (
            "."@,
            readable(string_views(cli.globs@)),
        ),
        walk_types(r) is Some <==> asks_for_types(*cli) && types_known(*cli),
        cli.globs@.len() > 0 && globs_can_be_had(string_views(cli.globs@)) ==> walk_globs(
            r,
        ) is Some,
        cli.globs@.len() > 0 && only_extensions(string_views(cli.globs@)) ==> (walk_globs(
            r,
        ) matches Some(o) && override_source(o) == ("."@, string_views(cli.globs@))),
        walk_types(r) matches Some(t) ==> types_source(t) == (default_types(), types_wanted(*cli)),
{
    let filter = build_filter(cli);
    configure_walk(cli, filter.globs, filter.types)
}

// Which files are searched.

/// What a matcher for globs says of a file: it is to be passed over.
pub uninterp spec fn globs_pass_over(source: (Seq<char>, Seq<Seq<char>>), file: PathBuf) -> bool;

/// What a matcher for file types says of a file: it is to be passed over.
pub uninterp spec fn types_pass_over(
    source: (Seq<(Seq<char>, Seq<Seq<char>>)>, Seq<(bool, Seq<char>)>),
    file: PathBuf,
) -> bool;

/// A path whose text ends in one of the extensions that these globs ask for.
pub open spec fn has_extension(shown: Seq<char>, globs: Seq<Seq<char>>) -> bool {
    exists|i: int| 0 <= i < globs.len() && (#[trigger] globs[i]).skip(1).is_suffix_of(shown)
}

/// Calls `ignore::overrides::Override::matched` for a file, and says whether the answer is that
/// it is to be passed over. Where all the globs ask for file extensions, these are exactly the
/// files that have none of them.
#[verifier::external_body]
fn passed_over_by_globs(globs: &Override, file: &PathBuf) -> (r: bool)
    ensures
        r == globs_pass_over(override_source(*globs), *file),
        override_source(*globs).0 == "."@ && override_source(*globs).1.len() > 0
            && only_extensions(override_source(*globs).1) ==> r == !has_extension(
            path_shown(*file),
            override_source(*globs).1,
        ),
{
    globs.matched(file, false).is_ignore()
}

/// Calls `ignore::types::Types::matched` for a file, and says whether the answer is that it is
/// to be passed over.
#[verifier::external_body]
fn passed_over_by_types(types: &Types, file: &PathBuf) -> (r: bool)
    ensures
        r == types_pass_over(types_source(*types), *file),
{
    types.matched(file, false).is_ignore()
}

/// The matchers of a run, which every file has to pass, also one that was named itself.
pub struct Filter {
    pub globs: Option<Override>,
    pub types: Option<Types>,
}

/// Neither matcher says that the file is to be passed over.
pub open spec fn passes(filter: Filter, file: PathBuf) -> bool {
    &&& (filter.globs matches Some(o) ==> !globs_pass_over(override_source(o), file))
    &&& (filter.types matches Some(t) ==> !types_pass_over(types_source(t), file))
}

/// The globs of the matcher for globs, where they all ask for file extensions.
pub open spec fn extensions_of(filter: Filter) -> Option<Seq<Seq<char>>> {
    match filter.globs {
        Some(o) => {
            let (root, globs) = override_source(o);
            if root == "."@ && globs.len() > 0 && only_extensions(globs) {
                Some(globs)
            } else {
                None
            }
        },
        None => None,
    }
}

impl Filter {
    /// The file is one to search.
    pub fn searched(&self, file: &PathBuf) -> (r: bool)
        ensures
            r == passes(*self, *file),
            extensions_of(*self) matches Some(globs) ==> (r ==> has_extension(
                path_shown(*file),
                globs,
            )),
            self.types is None ==> (extensions_of(*self) matches Some(globs) ==> r
                == has_extension(path_shown(*file), globs)),
    {
        let by_globs = match &self.globs {
            Some(globs) => passed_over_by_globs(globs, file),
            None => false,
        };
        let by_types = match &self.types {
            Some(types) => passed_over_by_types(types, file),
            None => false,
        };
        !by_globs && !by_types
    }
}

/// The matchers of a run. Those that cannot be made are done without.
pub fn build_filter(cli: &Cli) -> (r: Filter)
    ensures
        cli.globs@.len() == 0 ==> r.globs is None,
        r.globs matches Some(o) ==> override_source(o) == (
            "."@,
            readable(string_views(cli.globs@)),
        ),
        r.types is Some <==> asks_for_types(*cli) && types_known(*cli),
        cli.globs@.len() > 0 && globs_can_be_had(string_views(cli.globs@)) ==> r.globs is Some,
        cli.globs@.len() > 0 && only_extensions(string_views(cli.globs@)) ==> (
        r.globs matches Some(o) && override_source(o) == ("."@, string_views(cli.globs@))),
        cli.globs@.len() > 0 && only_extensions(string_views(cli.globs@)) ==> extensions_of(r)
            == Some(string_views(cli.globs@)),
        r.types matches Some(t) ==> types_source(t) == (default_types(), types_wanted(*cli)),
{
    let globs = build_overrides(&cli.globs);
    let types = match build_types(cli) {
        Ok(types) => types,
        Err(_e) => None,
    };
    Filter { globs, types }
}

// What a run searches.

/// A walk passes over hidden files and heeds every kind of ignore file, or none of these at all
/// where the user says so.
pub proof fn law_no_ignore_heeds_nothing()
    ensures
        heeds(false).0 && heeds(false).1 && heeds(false).2 && heeds(false).3 && heeds(false).4,
        !heeds(true).0 && !heeds(true).1 && !heeds(true).2 && !heeds(true).3 && !heeds(true).4,
{
}

/// A walk starts from every place in turn: from a path as it was given, or from the path that a
/// word stands for.
pub proof fn law_walk_starts_from_every_place(places: Seq<SearchPathView>)
    ensures
        place_paths(places).len() == places.len(),
        forall|i: int|
            0 <= i < places.len() ==> match #[trigger] places[i] {
                SearchPathView::Given(p) => place_paths(places)[i] == p,
                SearchPathView::Word(w) => place_paths(places)[i] == path_of(w),
            },
{
}

/// A file is searched unless the globs or the file types say that it is to be passed over.
pub proof fn law_files_pass_both_matchers(filter: Filter, file: PathBuf)
    ensures
        passes(filter, file) <==> {
            &&& filter.globs is None || !globs_pass_over(override_source(filter.globs->0), file)
            &&& filter.types is None || !types_pass_over(types_source(filter.types->0), file)
        },
{
}

/// A path has an extension that a glob asks for where it ends in what follows the star.
pub proof fn law_extension_is_the_end_of_the_path(shown: Seq<char>, globs: Seq<Seq<char>>)
    ensures
        has_extension(shown, globs) <==> exists|i: int|
            0 <= i < globs.len() && {
                let end = (#[trigger] globs[i]).subrange(1, globs[i].len() as int);
                end.len() <= shown.len() && shown.skip(shown.len() - end.len()) == end
            },
{
    assert forall|i: int| 0 <= i < globs.len() implies ((#[trigger] globs[i]).skip(1).is_suffix_of(
        shown,
    ) <==> {
        let end = globs[i].subrange(1, globs[i].len() as int);
        end.len() <= shown.len() && shown.skip(shown.len() - end.len()) == end
    }) by {
        let end = globs[i].subrange(1, globs[i].len() as int);
        assert(globs[i].skip(1) == end);
        if end.len() <= shown.len() {
            assert(shown.skip(shown.len() - end.len()) == shown.subrange(
                shown.len() - end.len(),
                shown.len() as int,
            ));
        }
    }
}

} // verus!
