//! `.desktop` entries: which files describe visible applications, and the
//! application list built from them.
use vstd::prelude::*;

use crate::ipc::{opt_view, str_views, AppEntry, AppEntryView};
use crate::search::{join_path, path_join};
use crate::sort::{arranged, sorted_by, stable_order, stable_sort_by_keys};
use crate::text::{
    chars_eq_str, chars_of, eq_ignore_ascii_case, eq_ignore_case_str, ends_with, lines, lines_of,
    share_piece, share_piece_vecs, split_nonempty, split_nonempty_chars, split_once,
    split_once_chars, string_of, to_lowercase_chars, trim, trim_chars, unicode_lowercase, views,
};

verus! {

/// What the keys of a `.desktop` file have said so far.
pub struct DesktopScan {
    pub in_entry: bool,
    pub type_app: bool,
    pub name: Option<Seq<char>>,
    pub command: Option<Seq<char>>,
    pub no_display: bool,
    pub hidden: bool,
    pub only_show_in: Option<Seq<char>>,
    pub not_show_in: Option<Seq<char>>,
}

/// The state before the first line.
pub open spec fn scan_start() -> DesktopScan {
    DesktopScan {
        in_entry: false,
        type_app: false,
        name: None,
        command: None,
        no_display: false,
        hidden: false,
        only_show_in: None,
        not_show_in: None,
    }
}

/// The effect of one line: a `[...]` header opens or closes the
/// `[Desktop Entry]` group (ASCII case ignored); inside it, `key=value`
/// lines set the keys the shell reads, later lines overriding earlier ones.
pub open spec fn scan_line(st: DesktopScan, raw: Seq<char>) -> DesktopScan {
    let line = trim(raw);
    if line.len() > 0 && line[0] == '[' {
        DesktopScan { in_entry: eq_ignore_ascii_case(line, "[desktop entry]"@), ..st }
    } else if !st.in_entry {
        st
    } else {
        match split_once(line, '=') {
            None => st,
            Some((k0, v0)) => {
                let k = trim(k0);
                let v = trim(v0);
                if k == "Type"@ {
                    DesktopScan { type_app: eq_ignore_ascii_case(v, "application"@), ..st }
                } else if k == "Name"@ {
                    DesktopScan { name: Some(v), ..st }
                } else if k == "Exec"@ {
                    DesktopScan { command: Some(v), ..st }
                } else if k == "NoDisplay"@ {
                    DesktopScan { no_display: eq_ignore_ascii_case(v, "true"@), ..st }
                } else if k == "Hidden"@ {
                    DesktopScan { hidden: eq_ignore_ascii_case(v, "true"@), ..st }
                } else if k == "OnlyShowIn"@ {
                    DesktopScan { only_show_in: Some(v), ..st }
                } else if k == "NotShowIn"@ {
                    DesktopScan { not_show_in: Some(v), ..st }
                } else {
                    st
                }
            },
        }
    }
}

/// The state after the lines `ls`.
pub open spec fn scan_lines(ls: Seq<Seq<char>>) -> DesktopScan
    decreases ls.len(),
{
    if ls.len() == 0 {
        scan_start()
    } else {
        scan_line(scan_lines(ls.drop_last()), ls.last())
    }
}

/// The application that a `.desktop` file named `file_name` with text `data`
/// describes, shown in a session whose `XDG_CURRENT_DESKTOP` is
/// `current_desktop`: none unless `Type` is `Application` and the entry is
/// neither `NoDisplay` nor `Hidden`; none when `OnlyShowIn` names none of the
/// current desktops, or `NotShowIn` names one of them (both only when the
/// session names a desktop). The id is the file name; the name falls back to
/// it and the command to the empty string.
pub open spec fn desktop_entry(data: Seq<char>, file_name: Seq<char>, current_desktop: Seq<char>) -> Option<
    AppEntryView,
> {
    let st = scan_lines(lines(data));
    if !st.type_app || st.no_display || st.hidden {
        None
    } else {
        let desktops = split_nonempty(current_desktop, ':');
        let not_listed = match st.only_show_in {
            Some(o) => desktops.len() > 0 && !share_piece(split_nonempty(o, ';'), desktops),
            None => false,
        };
        let excluded = match st.not_show_in {
            Some(n) => desktops.len() > 0 && share_piece(split_nonempty(n, ';'), desktops),
            None => false,
        };
        if not_listed || excluded {
            None
        } else {
            Some(
                AppEntryView {
                    id: file_name,
                    name: match st.name {
                        Some(n) => n,
                        None => file_name,
                    },
                    command: match st.command {
                        Some(e) => e,
                        None => Seq::empty(),
                    },
                },
            )
        }
    }
}

struct ScanState {
    in_entry: bool,
    type_app: bool,
    name: Option<Vec<char>>,
    command: Option<Vec<char>>,
    no_display: bool,
    hidden: bool,
    only_show_in: Option<Vec<char>>,
    not_show_in: Option<Vec<char>>,
}

spec fn opt_chars(o: Option<Vec<char>>) -> Option<Seq<char>> {
    match o {
        Some(v) => Some(v@),
        None => None,
    }
}

spec fn scan_view(st: ScanState) -> DesktopScan {
    DesktopScan {
        in_entry: st.in_entry,
        type_app: st.type_app,
        name: opt_chars(st.name),
        command: opt_chars(st.command),
        no_display: st.no_display,
        hidden: st.hidden,
        only_show_in: opt_chars(st.only_show_in),
        not_show_in: opt_chars(st.not_show_in),
    }
}

fn scan_step(st: ScanState, raw: &Vec<char>) -> (r: ScanState)
    ensures
        scan_view(r) == scan_line(scan_view(st), raw@),
{
    let mut st = st;
    let line = trim_chars(raw);
    if line.len() > 0 && line[0] == '[' {
        st.in_entry = eq_ignore_case_str(&line, "[desktop entry]");
        return st;
    }
    if !st.in_entry {
        return st;
    }
    match split_once_chars(&line, '=') {
        None => st,
        Some((k0, v0)) => {
            let k = trim_chars(&k0);
            let v = trim_chars(&v0);
            if chars_eq_str(&k, "Type") {
                st.type_app = eq_ignore_case_str(&v, "application");
            } else if chars_eq_str(&k, "Name") {
                st.name = Some(v);
            } else if chars_eq_str(&k, "Exec") {
                st.command = Some(v);
            } else if chars_eq_str(&k, "NoDisplay") {
                st.no_display = eq_ignore_case_str(&v, "true");
            } else if chars_eq_str(&k, "Hidden") {
                st.hidden = eq_ignore_case_str(&v, "true");
            } else if chars_eq_str(&k, "OnlyShowIn") {
                st.only_show_in = Some(v);
            } else if chars_eq_str(&k, "NotShowIn") {
                st.not_show_in = Some(v);
            }
            st
        },
    }
}

/// Parses the text of a `.desktop` file named `file_name`, for a session whose
/// `XDG_CURRENT_DESKTOP` is `current_desktop`.
pub fn parse_desktop_entry(data: &str, file_name: &str, current_desktop: &str) -> (r: Option<
    AppEntry,
>)
    ensures
        match desktop_entry(data@, file_name@, current_desktop@) {
            Some(a) => r matches Some(e) && e@ == a,
            None => r is None,
        },
{
    let text = chars_of(data);
    let ls = lines_of(&text);
    let mut st = ScanState {
        in_entry: false,
        type_app: false,
        name: None,
        command: None,
        no_display: false,
        hidden: false,
        only_show_in: None,
        not_show_in: None,
    };
    let ghost all = views(ls@);
    for i in 0..ls.len()
        invariant
            all == views(ls@),
            all.len() == ls@.len(),
            scan_view(st) == scan_lines(all.take(i as int)),
    {
        st = scan_step(st, &ls[i]);
        assert(all.take(i + 1).drop_last() =~= all.take(i as int));
    }
    assert(all.take(ls@.len() as int) =~= all);
    if !st.type_app || st.no_display || st.hidden {
        return None;
    }
    let cur = chars_of(current_desktop);
    let desktops = split_nonempty_chars(&cur, ':');
    if let Some(o) = &st.only_show_in {
        if desktops.len() > 0 {
            let allowed = split_nonempty_chars(o, ';');
            if !share_piece_vecs(&allowed, &desktops) {
                return None;
            }
        }
    }
    if let Some(n) = &st.not_show_in {
        if desktops.len() > 0 {
            let blocked = split_nonempty_chars(n, ';');
            if share_piece_vecs(&blocked, &desktops) {
                return None;
            }
        }
    }
    let id = String::from_str(file_name);
    let name = match &st.name {
        Some(n) => string_of(n),
        None => String::from_str(file_name),
    };
    let exec = match &st.command {
        Some(e) => string_of(e),
        None => String::new(),
    };
    Some(AppEntry { id, name, command: exec })
}

/// Whether a file name has the extension `desktop` (`Path::extension`): it
/// ends in `.desktop` with something before the dot.
pub open spec fn is_desktop_name(name: Seq<char>) -> bool {
    name.len() > 8 && ends_with(name, ".desktop"@)
}

/// Whether a directory entry named `name` is read as a `.desktop` file.
pub fn is_desktop_file_name(name: &str) -> (r: bool)
    ensures
        r == is_desktop_name(name@),
{
    let v = chars_of(name);
    let suffix = chars_of(".desktop");
    if v.len() <= 8 {
        return false;
    }
    crate::text::ends_with_chars(&v, &suffix)
}

/// A `.desktop` file found while scanning, with its text when it could be read.
#[derive(Debug, PartialEq, Eq)]
pub struct DesktopFile {
    pub file_name: String,
    pub contents: Option<String>,
}

/// The applications described by `files`, in scanning order.
pub open spec fn described_apps(files: Seq<DesktopFile>, current_desktop: Seq<char>) -> Seq<
    AppEntryView,
>
    decreases files.len(),
{
    if files.len() == 0 {
        seq![]
    } else {
        let prev = described_apps(files.drop_last(), current_desktop);
        match files.last().contents {
            Some(c) => match desktop_entry(c@, files.last().file_name@, current_desktop) {
                Some(a) => prev.push(a),
                None => prev,
            },
            None => prev,
        }
    }
}

/// Of entries with the same id, only the first.
pub open spec fn first_of_each_id(s: Seq<AppEntryView>) -> Seq<AppEntryView>
    decreases s.len(),
{
    if s.len() == 0 {
        seq![]
    } else {
        let prev = first_of_each_id(s.drop_last());
        if exists|j: int| 0 <= j < s.len() - 1 && s[j].id == s.last().id {
            prev
        } else {
            prev.push(s.last())
        }
    }
}

/// The views of a list of entries.
pub open spec fn app_views(s: Seq<AppEntry>) -> Seq<AppEntryView> {
    Seq::new(s.len(), |i: int| s[i]@)
}

/// The sort key of an entry: its name in Unicode lower case.
pub open spec fn name_keys(s: Seq<AppEntryView>) -> Seq<Seq<char>> {
    Seq::new(s.len(), |i: int| unicode_lowercase(s[i].name))
}

/// Whether some entry of `s` has id `id`.
pub open spec fn has_id(s: Seq<AppEntryView>, id: Seq<char>) -> bool {
    exists|j: int| 0 <= j < s.len() && s[j].id == id
}

proof fn lemma_has_id_push(s: Seq<AppEntryView>, x: AppEntryView, id: Seq<char>)
    ensures
        has_id(s.push(x), id) == (has_id(s, id) || x.id == id),
{
    if has_id(s, id) {
        let j = choose|j: int| 0 <= j < s.len() && s[j].id == id;
        assert(s.push(x)[j] == s[j]);
    }
    if x.id == id {
        assert(s.push(x)[s.len() as int] == x);
    }
    if has_id(s.push(x), id) {
        let j = choose|j: int| 0 <= j < s.push(x).len() && s.push(x)[j].id == id;
        if j < s.len() {
            assert(s[j] == s.push(x)[j]);
        }
    }
}

/// Adds `e` unless an entry with its id is already there.
fn add_first_of_id(
    found: &mut Vec<AppEntry>,
    keys: &mut Vec<Vec<char>>,
    e: AppEntry,
    Ghost(all): Ghost<Seq<AppEntryView>>,
)
    requires
        app_views(old(found)@) == first_of_each_id(all),
        views(old(keys)@) == name_keys(app_views(old(found)@)),
        forall|id: Seq<char>| has_id(app_views(old(found)@), id) == has_id(all, id),
    ensures
        app_views(final(found)@) == first_of_each_id(all.push(e@)),
        views(final(keys)@) == name_keys(app_views(final(found)@)),
        forall|id: Seq<char>|
            has_id(app_views(final(found)@), id) == has_id(all.push(e@), id),
{
    let mut seen = false;
    let mut j: usize = 0;
    while j < found.len()
        invariant
            j <= found@.len(),
            seen <==> exists|a: int| 0 <= a < j && found@[a].id@ == e.id@,
        decreases found@.len() - j,
    {
        if found[j].id == e.id {
            seen = true;
        }
        j += 1;
    }
    let ghost fv = app_views(found@);
    proof {
        if seen {
            let a = choose|a: int| 0 <= a < found@.len() && found@[a].id@ == e.id@;
            assert(fv[a].id == e.id@);
        }
        if has_id(fv, e.id@) {
            let a = choose|a: int| 0 <= a < fv.len() && fv[a].id == e.id@;
            assert(found@[a].id@ == e.id@);
        }
        assert(seen == has_id(all, e.id@));
        let all2 = all.push(e@);
        assert(all2.drop_last() =~= all);
        assert(has_id(all, e.id@) == exists|jj: int| 0 <= jj < all2.len() - 1 && all2[jj].id
            == all2.last().id) by {
            if has_id(all, e.id@) {
                let jj = choose|jj: int| 0 <= jj < all.len() && all[jj].id == e.id@;
                assert(all2[jj] == all[jj]);
            }
            if exists|jj: int| 0 <= jj < all2.len() - 1 && all2[jj].id == all2.last().id {
                let jj = choose|jj: int| 0 <= jj < all2.len() - 1 && all2[jj].id == all2.last().id;
                assert(all[jj] == all2[jj]);
            }
        }
        assert forall|id: Seq<char>| has_id(all.push(e@), id) == (has_id(all, id) || e.id@
            == id) by {
            lemma_has_id_push(all, e@, id);
        }
    }
    if !seen {
        let ghost old_keys = keys@;
        let k = to_lowercase_chars(e.name.as_str());
        found.push(e);
        keys.push(k);
        proof {
            assert(app_views(found@) =~= fv.push(e@));
            assert(views(keys@) =~= views(old_keys).push(k@));
            assert(name_keys(app_views(found@)) =~= name_keys(fv).push(unicode_lowercase(e.name@)));
            assert forall|id: Seq<char>| has_id(app_views(found@), id) == has_id(all.push(e@), id) by {
                lemma_has_id_push(fv, e@, id);
                lemma_has_id_push(all, e@, id);
                assert(has_id(fv, id) == has_id(all, id));
            }
        }
    } else {
        proof {
            assert forall|id: Seq<char>| has_id(app_views(found@), id) == has_id(all.push(e@), id) by {
                lemma_has_id_push(all, e@, id);
                assert(has_id(fv, id) == has_id(all, id));
                assert(has_id(all, e.id@));
            }
        }
    }
}

/// The applications listed for the `.desktop` files `files`: the first
/// visible entry of each id, in the stable order of their lower-cased names.
pub open spec fn listed_apps(files: Seq<DesktopFile>, current_desktop: Seq<char>) -> Seq<AppEntryView> {
    let firsts = first_of_each_id(described_apps(files, current_desktop));
    sorted_by(firsts, name_keys(firsts))
}

/// Lists the applications of the `.desktop` files found under the XDG data
/// directories, given in scanning order: the visible ones, the first of each
/// id, ordered stably by their lower-cased names.
pub fn list_apps(files: &Vec<DesktopFile>, current_desktop: &str) -> (r: Vec<AppEntry>)
    ensures
        app_views(r@) == listed_apps(files@, current_desktop@),
        exists|p: Seq<int>|
            stable_order(name_keys(first_of_each_id(described_apps(files@, current_desktop@))), p)
                && arranged(
                app_views(r@),
                first_of_each_id(described_apps(files@, current_desktop@)),
                p,
            ),
{
    let mut found: Vec<AppEntry> = Vec::new();
    let mut keys: Vec<Vec<char>> = Vec::new();
    let ghost mut all: Seq<AppEntryView> = Seq::empty();
    proof {
        assert(app_views(found@) =~= Seq::<AppEntryView>::empty());
        assert(views(keys@) =~= name_keys(app_views(found@)));
        assert(first_of_each_id(all) =~= Seq::<AppEntryView>::empty());
    }
    for i in 0..files.len()
        invariant
            all == described_apps(files@.take(i as int), current_desktop@),
            app_views(found@) == first_of_each_id(all),
            views(keys@) == name_keys(app_views(found@)),
            forall|id: Seq<char>| has_id(app_views(found@), id) == has_id(all, id),
    {
        assert(files@.take(i + 1).drop_last() =~= files@.take(i as int));
        let f = &files[i];
        if let Some(c) = &f.contents {
            if let Some(e) = parse_desktop_entry(c.as_str(), f.file_name.as_str(), current_desktop) {
                let ghost ev = e@;
                add_first_of_id(&mut found, &mut keys, e, Ghost(all));
                proof {
                    all = all.push(ev);
                }
            }
        }
    }
    assert(files@.take(files@.len() as int) =~= files@);
    assert(views(keys@).len() == keys@.len());
    let r = stable_sort_by_keys(found, keys);
    proof {
        let firsts = first_of_each_id(described_apps(files@, current_desktop@));
        let p = choose|p: Seq<int>| stable_order(views(keys@), p) && arranged(r@, found@, p);
        assert(arranged(app_views(r@), firsts, p));
        crate::sort::lemma_arranged_sorted(app_views(r@), firsts, name_keys(firsts), p);
    }
    r
}


/// The XDG data directories, in order: `.local/share` under `HOME` when it is
/// set, then each non-empty entry of `XDG_DATA_DIRS`, or `/usr/local/share`
/// and `/usr/share` when that variable is unset or names no directory.
pub open spec fn data_dirs_spec(home: Option<Seq<char>>, xdg: Option<Seq<char>>) -> Seq<Seq<char>> {
    let h: Seq<Seq<char>> = match home {
        Some(d) => seq![path_join(d, ".local/share"@)],
        None => seq![],
    };
    let parts: Seq<Seq<char>> = match xdg {
        Some(x) => split_nonempty(x, ':'),
        None => seq![],
    };
    h + if parts.len() > 0 {
        parts
    } else {
        seq!["/usr/local/share"@, "/usr/share"@]
    }
}

/// The XDG data directories named by `HOME` and `XDG_DATA_DIRS`.
pub fn data_dirs(home: Option<String>, xdg: Option<String>) -> (r: Vec<String>)
    ensures
        str_views(r@) == data_dirs_spec(opt_view(home), opt_view(xdg)),
{
    let mut v: Vec<String> = Vec::new();
    if let Some(h) = &home {
        v.push(join_path(h.as_str(), ".local/share"));
    }
    let ghost head = str_views(v@);
    assert(head =~= match opt_view(home) {
        Some(d) => seq![path_join(d, ".local/share"@)],
        None => Seq::<Seq<char>>::empty(),
    });
    let parts = match &xdg {
        Some(x) => split_nonempty_chars(&chars_of(x.as_str()), ':'),
        None => Vec::new(),
    };
    let ghost pv: Seq<Seq<char>> = match opt_view(xdg) {
        Some(x) => split_nonempty(x, ':'),
        None => seq![],
    };
    assert(views(parts@) =~= pv);
    if parts.len() == 0 {
        let ghost before = v@;
        v.push(String::from_str("/usr/local/share"));
        v.push(String::from_str("/usr/share"));
        assert(str_views(v@) =~= str_views(before) + seq!["/usr/local/share"@, "/usr/share"@]);
        return v;
    }
    let mut i: usize = 0;
    while i < parts.len()
        invariant
            i <= parts@.len(),
            str_views(v@) == head + views(parts@).take(i as int),
        decreases parts@.len() - i,
    {
        let ghost before = v@;
        v.push(string_of(&parts[i]));
        assert(str_views(v@) =~= str_views(before).push(parts@[i as int]@));
        assert(views(parts@).take(i + 1) =~= views(parts@).take(i as int).push(parts@[i as int]@));
        i = i + 1;
    }
    assert(views(parts@).take(parts@.len() as int) =~= views(parts@));
    v
}

/// The `applications` directory under a data directory.
pub fn applications_dir(root: &str) -> (r: String)
    ensures
        r@ == path_join(root@, "applications"@),
{
    join_path(root, "applications")
}


/// A parsed entry is a visible application: its `[Desktop Entry]` group
/// says `Type=Application` (ASCII case ignored) and neither `NoDisplay` nor
/// `Hidden` is `true`.
pub proof fn law_entry_is_visible_application(data: Seq<char>, file_name: Seq<char>, current_desktop: Seq<char>)
    ensures
        desktop_entry(data, file_name, current_desktop) is Some ==> {
            let st = scan_lines(lines(data));
            st.type_app && !st.no_display && !st.hidden
        },
{
}

proof fn lemma_outside_appended(ls: Seq<Seq<char>>, more: Seq<Seq<char>>)
    requires
        !scan_lines(ls).in_entry,
        forall|i: int| 0 <= i < more.len() ==> !(trim(#[trigger] more[i]).len() > 0 && trim(more[i])[0] == '['),
    ensures
        scan_lines(ls + more) == scan_lines(ls),
    decreases more.len(),
{
    if more.len() > 0 {
        let init = more.drop_last();
        assert forall|i: int| 0 <= i < init.len() implies !(trim(#[trigger] init[i]).len() > 0 && trim(
            init[i],
        )[0] == '[') by {
            assert(init[i] == more[i]);
        }
        lemma_outside_appended(ls, init);
        assert((ls + more).drop_last() =~= ls + init);
        assert((ls + more).last() == more[more.len() - 1]);
    } else {
        assert(ls + more =~= ls);
    }
}

proof fn lemma_scan_congruent(a: Seq<Seq<char>>, b: Seq<Seq<char>>, rest: Seq<Seq<char>>)
    requires
        scan_lines(a) == scan_lines(b),
    ensures
        scan_lines(a + rest) == scan_lines(b + rest),
    decreases rest.len(),
{
    if rest.len() == 0 {
        assert(a + rest =~= a);
        assert(b + rest =~= b);
    } else {
        lemma_scan_congruent(a, b, rest.drop_last());
        assert((a + rest).drop_last() =~= a + rest.drop_last());
        assert((b + rest).drop_last() =~= b + rest.drop_last());
    }
}

/// Lines read outside the `[Desktop Entry]` group that open no group change
/// nothing, wherever they stand: taking any run of them out of a file's
/// lines leaves what the scan finds as it was.
pub proof fn law_lines_outside_entry_ignored(
    before: Seq<Seq<char>>,
    more: Seq<Seq<char>>,
    after: Seq<Seq<char>>,
)
    requires
        !scan_lines(before).in_entry,
        forall|i: int| 0 <= i < more.len() ==> !(trim(#[trigger] more[i]).len() > 0 && trim(more[i])[0] == '['),
    ensures
        scan_lines(before + more + after) == scan_lines(before + after),
{
    lemma_outside_appended(before, more);
    lemma_scan_congruent(before + more, before, after);
}

proof fn lemma_firsts_from(s: Seq<AppEntryView>)
    ensures
        forall|i: int|
            0 <= i < first_of_each_id(s).len() ==> exists|j: int|
                0 <= j < s.len() && s[j].id == (#[trigger] first_of_each_id(s)[i]).id,
    decreases s.len(),
{
    if s.len() > 0 {
        lemma_firsts_from(s.drop_last());
        let prev = first_of_each_id(s.drop_last());
        assert forall|i: int| 0 <= i < first_of_each_id(s).len() implies exists|j: int|
            0 <= j < s.len() && s[j].id == (#[trigger] first_of_each_id(s)[i]).id by {
            if i < prev.len() {
                assert(first_of_each_id(s)[i] == prev[i]);
                let j = choose|j: int| 0 <= j < s.drop_last().len() && s.drop_last()[j].id == prev[i].id;
                assert(s[j] == s.drop_last()[j]);
            } else {
                assert(first_of_each_id(s)[i] == s.last());
                assert(s[s.len() - 1] == s.last());
            }
        }
    }
}

proof fn lemma_firsts_distinct(s: Seq<AppEntryView>)
    ensures
        forall|i: int, j: int|
            0 <= i < j < first_of_each_id(s).len() ==> (#[trigger] first_of_each_id(s)[i]).id
                != (#[trigger] first_of_each_id(s)[j]).id,
    decreases s.len(),
{
    if s.len() > 0 {
        lemma_firsts_distinct(s.drop_last());
        lemma_firsts_from(s.drop_last());
        let prev = first_of_each_id(s.drop_last());
        if !(exists|j: int| 0 <= j < s.len() - 1 && s[j].id == s.last().id) {
            let f = prev.push(s.last());
            assert forall|i: int, j: int| 0 <= i < j < f.len() implies (#[trigger] f[i]).id
                != (#[trigger] f[j]).id by {
                if j < prev.len() {
                    assert(f[i] == prev[i] && f[j] == prev[j]);
                } else {
                    assert(f[i] == prev[i]);
                    if prev[i].id == s.last().id {
                        let k = choose|k: int|
                            0 <= k < s.drop_last().len() && s.drop_last()[k].id == prev[i].id;
                        assert(s[k] == s.drop_last()[k]);
                    }
                }
            }
        }
    }
}

/// No two listed applications share an id: the list is an arrangement of
/// the first entry of each id.
pub proof fn law_app_ids_distinct(
    files: Seq<DesktopFile>,
    current_desktop: Seq<char>,
    apps: Seq<AppEntryView>,
    p: Seq<int>,
)
    requires
        crate::sort::is_permutation(p, first_of_each_id(described_apps(files, current_desktop)).len()),
        arranged(apps, first_of_each_id(described_apps(files, current_desktop)), p),
    ensures
        forall|i: int, j: int| 0 <= i < j < apps.len() ==> (#[trigger] apps[i]).id != (#[trigger] apps[j]).id,
{
    let firsts = first_of_each_id(described_apps(files, current_desktop));
    lemma_firsts_distinct(described_apps(files, current_desktop));
    assert forall|i: int, j: int| 0 <= i < j < apps.len() implies (#[trigger] apps[i]).id
        != (#[trigger] apps[j]).id by {
        assert(apps[i] == firsts[p[i]]);
        assert(apps[j] == firsts[p[j]]);
        assert(p[i] != p[j]);
        if p[i] < p[j] {
            assert(firsts[p[i]].id != firsts[p[j]].id);
        } else {
            assert(firsts[p[j]].id != firsts[p[i]].id);
        }
    }
}

} // verus!
