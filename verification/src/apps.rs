//! The shell's application index: the names of the installed applications.
use vstd::prelude::*;

use crate::desktop::{app_views, listed_apps, DesktopFile};
use crate::ipc::{str_views, AppEntryView};

verus! {

/// The names of a list of entries.
pub open spec fn names_of(s: Seq<AppEntryView>) -> Seq<Seq<char>> {
    Seq::new(s.len(), |i: int| s[i].name)
}

/// The names of the applications that [`crate::desktop::list_apps`] lists for
/// `files`, in its order: the names of the first entry of each id, arranged
/// in the stable order of their lower-cased names.
pub fn list_apps(files: &Vec<DesktopFile>, current_desktop: &str) -> (r: Vec<String>)
    ensures
        str_views(r@) == names_of(listed_apps(files@, current_desktop@)),
{
    let apps = crate::desktop::list_apps(files, current_desktop);
    let mut out: Vec<String> = Vec::new();
    for i in 0..apps.len()
        invariant
            str_views(out@) == names_of(app_views(apps@)).take(i as int),
    {
        let ghost before = out@;
        out.push(apps[i].name.clone());
        assert(app_views(apps@)[i as int] == apps@[i as int]@);
        assert(str_views(out@) =~= str_views(before).push(apps@[i as int].name@));
        assert(str_views(out@) =~= names_of(app_views(apps@)).take(i + 1));
    }
    assert(str_views(out@) =~= names_of(app_views(apps@)));
    out
}

/// The shell lists the names of exactly the applications that the desktop
/// index lists for the same files, one for one and in the same order.
pub proof fn law_shell_lists_desktop_apps(
    files: Seq<DesktopFile>,
    current_desktop: Seq<char>,
    desktop: Seq<AppEntryView>,
    shell: Seq<Seq<char>>,
)
    requires
        desktop == listed_apps(files, current_desktop),
        shell == names_of(listed_apps(files, current_desktop)),
    ensures
        shell.len() == desktop.len(),
        forall|i: int| 0 <= i < shell.len() ==> shell[i] == #[trigger] desktop[i].name,
{
}

} // verus!
