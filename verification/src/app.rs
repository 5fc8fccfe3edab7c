//! Installed applications, as listed by the package manager.

use crate::sorting::keyed_views;
use crate::sorting::sort_keyed;
use crate::sorting::sorted_by_key;
use crate::sorting::Keyed;
use crate::sorting::KeyedName;
use crate::split::gather;
use crate::split::line_views;
use crate::split::lines_of;
use crate::split::remove_all;
use crate::split::remove_all_slice;
use crate::split::split_lines;
use crate::text::from_chars;
use crate::text::lowercase_of;
use crate::text::string_views;
use crate::text::to_chars;
use crate::text::trim;
use crate::text::trim_slice;
use vstd::prelude::*;

verus! {

/// One installed application: its package identifier and the name shown for it.
pub struct App {
    pub package_name: String,
    pub app_name: String,
}

/// The mathematical content of an `App`.
pub struct AppNames {
    pub package_name: Seq<char>,
    pub app_name: Seq<char>,
}

impl View for App {
    type V = AppNames;

    open spec fn view(&self) -> AppNames {
        AppNames { package_name: self.package_name@, app_name: self.app_name@ }
    }
}

impl App {
    /// Builds an application record from a package identifier and a display name.
    pub fn new(package_name: &str, app_name: &str) -> (app: Self)
        ensures
            app.package_name@ == package_name@,
            app.app_name@ == app_name@,
    {
        App { package_name: package_name.to_owned(), app_name: app_name.to_owned() }
    }
}

/// The applications that a vector holds.
pub open spec fn app_views(apps: Seq<App>) -> Seq<AppNames> {
    apps.map_values(|a: App| a@)
}

/// The package that a line of a package list names: the line without its
/// `package:` marks, trimmed. An empty line names none.
pub open spec fn package_on(line: Seq<char>) -> Option<Seq<char>> {
    if line.len() == 0 {
        None
    } else {
        Some(trim(remove_all(line, "package:"@)))
    }
}

/// The packages that a package list names, in its order.
pub open spec fn packages_of(listing: Seq<char>) -> Seq<Seq<char>> {
    gather(lines_of(listing), |line: Seq<char>| package_on(line))
}

/// Each name with its lowercase form as key.
pub open spec fn keyed_by_lowercase(names: Seq<Seq<char>>) -> Seq<Keyed> {
    names.map_values(|name: Seq<char>| Keyed { key: lowercase_of(name), name })
}

/// The application that stands for a package of which only the name is known:
/// the name serves as display name too.
pub open spec fn app_named(item: Keyed) -> AppNames {
    AppNames { package_name: item.name, app_name: item.name }
}

/// The installed applications according to a package list: its packages,
/// ordered by their names without regard to case; packages whose names differ
/// in case only keep the order of the list.
pub open spec fn installed_apps_of(listing: Seq<char>) -> Seq<AppNames> {
    sorted_by_key(keyed_by_lowercase(packages_of(listing))).map_values(
        |item: Keyed| app_named(item),
    )
}

/// The packages that a package list names, in its order.
pub fn parse_package_names(listing: &str) -> (names: Vec<String>)
    ensures
        string_views(names@) == packages_of(listing@),
{
    let chars = to_chars(listing);
    let lines = split_lines(chars.as_slice());
    let mark = to_chars("package:");
    let ghost all = line_views(lines@);
    let ghost f = |line: Seq<char>| package_on(line);
    let mut names: Vec<String> = Vec::new();
    let mut k: usize = 0;
    assert(all.take(0) =~= Seq::empty());
    assert(string_views(names@) =~= Seq::empty());
    while k < lines.len()
        invariant
            k <= lines.len(),
            all == line_views(lines@),
            f == (|line: Seq<char>| package_on(line)),
            mark@ == "package:"@,
            string_views(names@) == gather(all.take(k as int), f),
        decreases lines.len() - k,
    {
        let line = lines[k].as_slice();
        proof {
            assert(all.take(k + 1).drop_last() =~= all.take(k as int));
            assert(all.take(k + 1).last() == line@);
        }
        if line.len() > 0 {
            let bare = remove_all_slice(line, mark.as_slice());
            let name = from_chars(trim_slice(bare.as_slice()));
            let ghost before = string_views(names@);
            names.push(name);
            assert(string_views(names@) =~= before.push(name@));
        }
        k += 1;
    }
    assert(all.take(k as int) =~= all);
    names
}

/// Package names ordered by the given keys, as applications. Names with equal
/// keys keep their order.
pub fn apps_in_order(items: Vec<KeyedName>) -> (apps: Vec<App>)
    ensures
        app_views(apps@) == sorted_by_key(keyed_views(items@)).map_values(
            |item: Keyed| app_named(item),
        ),
{
    let sorted = sort_keyed(items);
    let ghost all = keyed_views(sorted@);
    let ghost wanted = all.map_values(|item: Keyed| app_named(item));
    let mut apps: Vec<App> = Vec::new();
    let mut i: usize = 0;
    assert(app_views(apps@) =~= wanted.take(0));
    while i < sorted.len()
        invariant
            i <= sorted.len(),
            all == keyed_views(sorted@),
            wanted == all.map_values(|item: Keyed| app_named(item)),
            app_views(apps@) == wanted.take(i as int),
        decreases sorted.len() - i,
    {
        let name = sorted[i].name.as_str();
        let app = App::new(name, name);
        proof {
            assert(all[i as int] == sorted@[i as int]@);
            assert(app@ == wanted[i as int]);
        }
        let ghost before = app_views(apps@);
        apps.push(app);
        assert(app_views(apps@) =~= before.push(app@));
        assert(wanted.take(i + 1) =~= before.push(app@));
        i += 1;
    }
    assert(wanted.take(i as int) =~= wanted);
    apps
}

/// The installed applications according to a package list, ordered by name
/// without regard to case.
pub fn parse_installed_apps(listing: &str) -> (apps: Vec<App>)
    ensures
        app_views(apps@) == installed_apps_of(listing@),
{
    let names = parse_package_names(listing);
    let ghost all = string_views(names@);
    let ghost wanted = keyed_by_lowercase(all);
    let mut items: Vec<KeyedName> = Vec::new();
    let mut i: usize = 0;
    assert(keyed_views(items@) =~= wanted.take(0));
    while i < names.len()
        invariant
            i <= names.len(),
            all == string_views(names@),
            wanted == keyed_by_lowercase(all),
            keyed_views(items@) == wanted.take(i as int),
        decreases names.len() - i,
    {
        let item = KeyedName { key: names[i].as_str().to_lowercase(), name: names[i].clone() };
        proof {
            assert(all[i as int] == names@[i as int]@);
            assert(item@ == wanted[i as int]);
        }
        let ghost before = keyed_views(items@);
        items.push(item);
        assert(keyed_views(items@) =~= before.push(item@));
        assert(wanted.take(i + 1) =~= before.push(item@));
        i += 1;
    }
    assert(wanted.take(i as int) =~= wanted);
    apps_in_order(items)
}

} // verus!
