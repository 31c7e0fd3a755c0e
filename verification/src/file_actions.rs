//! What the file commands do with their inputs: which folder a path opens
//! in, which application opens it, the scripts handed to the system, and
//! what a picker's answer means.
use vstd::prelude::*;

use crate::paths::{extension, file_stem, parent};
use crate::strings::{lemma_views_push, views};
use crate::text::{trim, trim_end_char};

verus! {

/// Where a path opens: a directory as itself, anything else in its parent.
pub open spec fn container_of(path: Seq<char>, exists: bool, is_dir: bool) -> Result<Seq<char>, Seq<char>> {
    if !exists {
        Err("Target path does not exist"@)
    } else if is_dir {
        Ok(path)
    } else {
        match parent(path) {
            Some(p) => Ok(p),
            None => Err("Unable to resolve parent directory"@),
        }
    }
}

pub open spec fn result_view(r: Result<String, String>) -> Result<Seq<char>, Seq<char>> {
    match r {
        Ok(s) => Ok(s@),
        Err(e) => Err(e@),
    }
}

/// The folder a path opens in, given whether it exists and is a directory.
pub fn open_container_path(path: &str, exists: bool, is_dir: bool) -> (r: Result<String, String>)
    ensures
        result_view(r) == container_of(path@, exists, is_dir),
{
    if !exists {
        return Err(crate::text::owned("Target path does not exist"));
    }
    if is_dir {
        return Ok(crate::text::owned(path));
    }
    match crate::paths::parent_chars(&crate::text::chars_of(path)) {
        Some(p) => Ok(crate::text::string_of(&p)),
        None => Err(crate::text::owned("Unable to resolve parent directory")),
    }
}

/// `s` quoted for an AppleScript string: `\` and `"` preceded by `\`.
pub open spec fn script_escape(s: Seq<char>) -> Seq<char>
    decreases s.len(),
{
    if s.len() == 0 {
        Seq::empty()
    } else {
        let prev = script_escape(s.drop_last());
        if s.last() == '\\' || s.last() == '"' {
            prev.push('\\').push(s.last())
        } else {
            prev.push(s.last())
        }
    }
}

pub fn applescript_escape(raw: &str) -> (r: String)
    ensures
        r@ == script_escape(raw@),
{
    let v = crate::text::chars_of(raw);
    let mut r = String::new();
    let mut i: usize = 0;
    while i < v.len()
        invariant
            i <= v.len(),
            v@ == raw@,
            r@ == script_escape(v@.take(i as int)),
        decreases v.len() - i,
    {
        assert(v@.take(i + 1).drop_last() =~= v@.take(i as int));
        if v[i] == '\\' || v[i] == '"' {
            crate::text::push_char(&mut r, '\\');
        }
        crate::text::push_char(&mut r, v[i]);
        i = i + 1;
    }
    assert(v@.take(v.len() as int) =~= v@);
    r
}

/// The script that brings an application to the front.
pub fn activation_script(app_name: &str) -> (r: String)
    ensures
        r@ == "tell application \""@ + script_escape(app_name@) + "\" to activate"@,
{
    let mut r = crate::text::owned("tell application \"");
    let e = applescript_escape(app_name);
    crate::text::append_str(&mut r, e.as_str());
    crate::text::append_str(&mut r, "\" to activate");
    r
}

/// The outcome of bringing an application to the front, given whether its
/// activation script (`activation_script`) ran successfully.
pub fn activate_application(app_name: &str, script_succeeded: bool) -> (r: Result<(), String>)
    ensures
        script_succeeded ==> r is Ok,
        !script_succeeded ==> (r matches Err(e) && e@ == "Failed to activate "@ + app_name@),
{
    if script_succeeded {
        Ok(())
    } else {
        Err(crate::text::concat_str("Failed to activate ", app_name))
    }
}

/// The script that moves a path to the Trash through Finder.
pub fn trash_script(path: &str) -> (r: String)
    ensures
        r@ == "tell application \"Finder\" to delete POSIX file \""@ + script_escape(path@) + "\""@,
{
    let mut r = crate::text::owned("tell application \"Finder\" to delete POSIX file \"");
    let e = applescript_escape(path);
    crate::text::append_str(&mut r, e.as_str());
    crate::text::append_str(&mut r, "\"");
    r
}

/// The part after the last `|` of `s`, or all of `s`.
pub open spec fn after_last_bar(s: Seq<char>) -> Seq<char>
    decreases s.len(),
{
    if s.len() == 0 {
        s
    } else if s.last() == '|' {
        Seq::empty()
    } else {
        after_last_bar(s.drop_last()).push(s.last())
    }
}

/// The application path of a setting: the custom field when set, else the
/// action; a `Name|/path/App.app` value gives its path part.
pub open spec fn app_path_of(action: Seq<char>, custom: Seq<char>) -> Seq<char> {
    let source = if custom.len() == 0 {
        action
    } else {
        custom
    };
    after_last_bar(source)
}

/// Resolve the actual .app path from either the action value or the custom app field.
/// The format is "AppName|/path/to/App.app" (from `pick_app`).
pub fn resolve_app_path(action: &str, custom: &str) -> (r: String)
    ensures
        r@ == app_path_of(action@, custom@),
{
    let source = if custom.is_empty() {
        crate::text::chars_of(action)
    } else {
        crate::text::chars_of(custom)
    };
    let mut k: usize = source.len();
    assert(source@.take(source.len() as int) =~= source@);
    while k > 0 && source[k - 1] != '|'
        invariant
            k <= source.len(),
            after_last_bar(source@) == after_last_bar(source@.take(k as int)) + source@.skip(k as int),
        decreases k,
    {
        assert(source@.take(k as int).drop_last() =~= source@.take(k - 1));
        assert(source@.skip(k - 1) =~= seq![source@[k - 1]] + source@.skip(k as int));
        k = k - 1;
    }
    if k > 0 {
        assert(after_last_bar(source@.take(k as int)) == Seq::<char>::empty());
    } else {
        assert(source@.take(0) =~= Seq::<char>::empty());
    }
    assert(source@.skip(k as int) =~= source@.subrange(k as int, source.len() as int));
    crate::text::string_of(&crate::text::slice_chars(&source, k, source.len()))
}

/// How a folder (or a file) is opened.
#[derive(Clone, Debug, PartialEq, Eq)]
pub enum OpenAction {
    /// `open -a <name>` with a known application.
    App(String),
    /// `open -a <path>` with a user-chosen application.
    Custom(String),
    /// The terminal app: a new tab where it supports one.
    WezTerm,
}

pub open spec fn folder_action(action: Seq<char>, custom: Seq<char>) -> (bool, Seq<char>) {
    if action == "QSpace Pro"@ {
        (false, "QSpace Pro"@)
    } else if action == "Finder"@ {
        (false, "Finder"@)
    } else if app_path_of(action, custom).len() > 0 {
        (true, app_path_of(action, custom))
    } else {
        (false, "Finder"@)
    }
}

/// How a folder opens under the configured folder action: in QSpace Pro or
/// Finder by name, else in the chosen application, else in Finder.
pub fn folder_open_action(action: &str, custom: &str) -> (r: OpenAction)
    ensures
        folder_action(action@, custom@).0 ==> (r matches OpenAction::Custom(p) && p@ == folder_action(action@, custom@).1),
        !folder_action(action@, custom@).0 ==> (r matches OpenAction::App(p) && p@ == folder_action(action@, custom@).1),
{
    if crate::text::str_eq(action, "QSpace Pro") {
        return OpenAction::App(crate::text::owned("QSpace Pro"));
    }
    if crate::text::str_eq(action, "Finder") {
        return OpenAction::App(crate::text::owned("Finder"));
    }
    let app_path = resolve_app_path(action, custom);
    if !app_path.as_str().is_empty() {
        OpenAction::Custom(app_path)
    } else {
        OpenAction::App(crate::text::owned("Finder"))
    }
}

/// How a terminal opens under the configured terminal action: WezTerm,
/// Terminal by name, the chosen application, or Terminal.
pub fn terminal_open_action(action: &str, custom: &str) -> (r: OpenAction)
    ensures
        action@ == "WezTerm"@ ==> r is WezTerm,
        action@ != "WezTerm"@ && action@ == "Terminal"@ ==> (r matches OpenAction::App(p) && p@ == "Terminal"@),
        action@ != "WezTerm"@ && action@ != "Terminal"@ && app_path_of(action@, custom@).len() > 0
            ==> (r matches OpenAction::Custom(p) && p@ == app_path_of(action@, custom@)),
        action@ != "WezTerm"@ && action@ != "Terminal"@ && app_path_of(action@, custom@).len() == 0
            ==> (r matches OpenAction::App(p) && p@ == "Terminal"@),
{
    if crate::text::str_eq(action, "WezTerm") {
        return OpenAction::WezTerm;
    }
    if crate::text::str_eq(action, "Terminal") {
        return OpenAction::App(crate::text::owned("Terminal"));
    }
    let app_path = resolve_app_path(action, custom);
    if !app_path.as_str().is_empty() {
        OpenAction::Custom(app_path)
    } else {
        OpenAction::App(crate::text::owned("Terminal"))
    }
}

/// A folder chosen in the picker: the trimmed answer, without trailing `/`
/// unless it is `/`; nothing for an empty answer.
pub open spec fn picked_folder_spec(raw: Seq<char>) -> Option<Seq<char>> {
    let t = trim(raw);
    if t.len() == 0 {
        None
    } else if t == seq!['/'] {
        Some(t)
    } else {
        Some(trim_end_char(t, '/'))
    }
}

pub fn picked_folder(raw: &str) -> (r: Option<String>)
    ensures
        match r {
            Some(s) => picked_folder_spec(raw@) == Some(s@),
            None => picked_folder_spec(raw@) is None,
        },
{
    let t = crate::text::trim_chars(&crate::text::chars_of(raw));
    if t.len() == 0 {
        return None;
    }
    if crate::text::seq_eq(&t, &crate::text::single('/')) {
        return Some(crate::text::string_of(&t));
    }
    Some(crate::text::string_of(&crate::text::trim_end_char_chars(&t, '/')))
}

/// An application chosen in the picker, as `Name|/path/App.app`: only a
/// path with the extension `app`; the name is its file stem.
pub open spec fn picked_app_spec(raw: Seq<char>) -> Option<Seq<char>> {
    let t = trim(raw);
    if t.len() == 0 || extension(t) != Some("app"@) {
        None
    } else {
        let name = match file_stem(t) {
            Some(s) => s,
            None => t,
        };
        Some(name + seq!['|'] + trim_end_char(t, '/'))
    }
}

pub fn picked_app(raw: &str) -> (r: Option<String>)
    ensures
        match r {
            Some(s) => picked_app_spec(raw@) == Some(s@),
            None => picked_app_spec(raw@) is None,
        },
{
    let t = crate::text::trim_chars(&crate::text::chars_of(raw));
    if t.len() == 0 {
        return None;
    }
    let is_app = match crate::paths::extension_chars(&t) {
        Some(e) => crate::text::seq_eq(&e, &crate::text::chars_of("app")),
        None => false,
    };
    if !is_app {
        return None;
    }
    let name = match crate::paths::file_stem_chars(&t) {
        Some(s) => s,
        None => crate::text::slice_chars(&t, 0, t.len()),
    };
    let mut r = crate::text::string_of(&name);
    crate::text::push_char(&mut r, '|');
    let tail = crate::text::string_of(&crate::text::trim_end_char_chars(&t, '/'));
    crate::text::append_str(&mut r, tail.as_str());
    assert(t@.subrange(0, t@.len() as int) =~= t@);
    assert(r@ =~= name@ + seq!['|'] + trim_end_char(t@, '/'));
    Some(r)
}

/// The paths handed to a copy: each trimmed, empty ones dropped.
pub open spec fn selected(paths: Seq<Seq<char>>) -> Seq<Seq<char>> {
    paths.map_values(|p: Seq<char>| trim(p)).filter(|p: Seq<char>| p.len() > 0)
}

/// The selected paths, or an error when none is left.
pub fn selected_paths(paths: &Vec<String>) -> (r: Result<Vec<String>, String>)
    ensures
        selected(views(paths@)).len() == 0 ==> (r matches Err(e) && e@ == "No paths selected"@),
        selected(views(paths@)).len() > 0 ==> (r matches Ok(v) && views(v@) == selected(views(paths@))),
{
    let ghost trimmed = views(paths@).map_values(|p: Seq<char>| trim(p));
    let mut out: Vec<String> = Vec::new();
    let mut i: usize = 0;
    while i < paths.len()
        invariant
            i <= paths.len(),
            trimmed == views(paths@).map_values(|p: Seq<char>| trim(p)),
            views(out@) == trimmed.take(i as int).filter(|p: Seq<char>| p.len() > 0),
        decreases paths.len() - i,
    {
        let t = crate::text::trim_str(paths[i].as_str());
        proof {
            assert(trimmed.take(i + 1).drop_last() =~= trimmed.take(i as int));
            assert(trimmed.take(i + 1).last() == t@);
            reveal_with_fuel(Seq::filter, 1);
        }
        if !t.as_str().is_empty() {
            proof {
                lemma_views_push(out@, t);
            }
            out.push(t);
        }
        i = i + 1;
    }
    assert(trimmed.take(paths.len() as int) =~= trimmed);
    if out.len() == 0 {
        return Err(crate::text::owned("No paths selected"));
    }
    Ok(out)
}

/// The paths a preview shows: those that exist, in order.
pub open spec fn existing_paths(paths: Seq<Seq<char>>, exists: Seq<bool>) -> Seq<Seq<char>>
    decreases paths.len(),
{
    if paths.len() == 0 || exists.len() == 0 {
        Seq::empty()
    } else {
        let prev = existing_paths(paths.drop_last(), exists.drop_last());
        if exists.last() {
            prev.push(paths.last())
        } else {
            prev
        }
    }
}

/// What a preview is handed: nothing for no paths; else the existing
/// paths, unless one of them holds a NUL character or none exists.
pub open spec fn preview_outcome(paths: Seq<Seq<char>>, exists: Seq<bool>) -> Result<Seq<Seq<char>>, Seq<char>> {
    let kept = existing_paths(paths, exists);
    if paths.len() == 0 {
        Ok(Seq::empty())
    } else if exists|k: int| 0 <= k < kept.len() && (#[trigger] kept[k]).contains('\0') {
        Err("Target path contains NUL byte"@)
    } else if kept.len() == 0 {
        Err("Target path does not exist"@)
    } else {
        Ok(kept)
    }
}

fn has_nul(s: &str) -> (r: bool)
    ensures
        r == s@.contains('\0'),
{
    let cs = crate::text::chars_of(s);
    let mut k: usize = 0;
    while k < cs.len()
        invariant
            k <= cs.len(),
            cs@ == s@,
            forall|j: int| 0 <= j < k ==> cs@[j] != '\0',
        decreases cs.len() - k,
    {
        if cs[k] == '\0' {
            return true;
        }
        k = k + 1;
    }
    false
}

/// The paths a Quick Look preview opens, given whether each one exists.
pub fn preview_targets(paths: &Vec<String>, exists: &Vec<bool>) -> (r: Result<Vec<String>, String>)
    requires
        paths.len() == exists.len(),
    ensures
        match preview_outcome(views(paths@), exists@) {
            Ok(v) => r matches Ok(out) && views(out@) == v,
            Err(e) => r matches Err(msg) && msg@ == e,
        },
{
    let ghost pv = views(paths@);
    let mut out: Vec<String> = Vec::new();
    let mut nul = false;
    let mut i: usize = 0;
    while i < paths.len()
        invariant
            i <= paths.len(),
            paths.len() == exists.len(),
            pv == views(paths@),
            views(out@) == existing_paths(pv.take(i as int), exists@.take(i as int)),
            nul == exists|k: int| 0 <= k < out@.len() && (#[trigger] out@[k])@.contains('\0'),
        decreases paths.len() - i,
    {
        proof {
            assert(pv.take(i + 1).drop_last() =~= pv.take(i as int));
            assert(exists@.take(i + 1).drop_last() =~= exists@.take(i as int));
            assert(pv.take(i + 1).last() == paths@[i as int]@);
        }
        if exists[i] {
            let n = has_nul(paths[i].as_str());
            let ghost old_out = out@;
            let c = paths[i].clone();
            proof {
                lemma_views_push(out@, c);
            }
            out.push(c);
            proof {
                assert(out@[old_out.len() as int]@ == paths@[i as int]@);
                if nul {
                    let k = choose|k: int| 0 <= k < old_out.len() && (#[trigger] old_out[k])@.contains('\0');
                    assert(out@[k] == old_out[k]);
                }
                if !nul && !n {
                    assert forall|k: int| 0 <= k < out@.len() implies !(#[trigger] out@[k])@.contains('\0') by {
                        if k < old_out.len() {
                            assert(out@[k] == old_out[k]);
                        }
                    }
                }
            }
            nul = nul || n;
        }
        i = i + 1;
    }
    proof {
        assert(pv.take(paths.len() as int) =~= pv);
        assert(exists@.take(paths.len() as int) =~= exists@);
        let kept = existing_paths(pv, exists@);
        assert(kept.len() == out@.len());
        assert(forall|k: int| 0 <= k < out@.len() ==> #[trigger] kept[k] == out@[k]@);
        if nul {
            let k = choose|k: int| 0 <= k < out@.len() && (#[trigger] out@[k])@.contains('\0');
            assert(kept[k].contains('\0'));
        }
    }
    if paths.len() == 0 {
        return Ok(Vec::new());
    }
    if nul {
        return Err(crate::text::owned("Target path contains NUL byte"));
    }
    if out.len() == 0 {
        return Err(crate::text::owned("Target path does not exist"));
    }
    Ok(out)
}

} // verus!
