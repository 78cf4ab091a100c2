//! Decisions of the desktop shell: where a navigation goes, what closing the main
//! window does, which model to fall back to after a crash, and the texts it shows.
use vstd::prelude::*;
use crate::downloads::{crash_fallbacks, fallback_kind, spec_crash_fallbacks, spec_fallback_kind};
use crate::model_manager::{installed_answer, is_installed_at};
use crate::models::strs_view;
use crate::paths::{joins_to, path_join, plain_file_name};
use crate::text::{chars_of, push_str_chars, str_eq, string_of, sub_chars};

verus! {

/// Where a navigation of the web view goes.
#[derive(PartialEq, Eq, Structural, Clone, Copy, Debug)]
pub enum Navigation {
    /// The web view follows it.
    Stay,
    /// It opens in the system browser and the web view stays where it is.
    OpenInBrowser,
}

/// Hosts of the application itself.
pub open spec fn internal_hosts() -> Seq<Seq<char>> {
    seq!["localhost"@, "127.0.0.1"@, "tauri.localhost"@, "::1"@]
}

/// Schemes opened in the system browser.
pub open spec fn external_schemes() -> Seq<Seq<char>> {
    seq!["http"@, "https"@, "mailto"@, "tel"@]
}

/// Where a navigation goes: the application's own pages (scheme `tauri` or an
/// internal host) stay; web, mail and phone links open in the browser; anything else
/// stays.
pub open spec fn spec_navigation(scheme: Seq<char>, host: Option<Seq<char>>) -> Navigation {
    let internal = scheme == "tauri"@ || (host matches Some(h) && internal_hosts().contains(h));
    if internal {
        Navigation::Stay
    } else if external_schemes().contains(scheme) {
        Navigation::OpenInBrowser
    } else {
        Navigation::Stay
    }
}

/// Decides where a navigation to a URL with this scheme and host goes.
pub fn navigation_decision(scheme: &str, host: Option<&str>) -> (r: Navigation)
    ensures
        r == spec_navigation(scheme@, match host { Some(h) => Some(h@), None => None }),
{
    let hosts: Vec<&str> = vec!["localhost", "127.0.0.1", "tauri.localhost", "::1"];
    assert(strs_view(hosts@) =~= internal_hosts());
    let schemes: Vec<&str> = vec!["http", "https", "mailto", "tel"];
    assert(strs_view(schemes@) =~= external_schemes());
    let internal_host = match host {
        Some(h) => crate::formats::name_in(&hosts, h),
        None => false,
    };
    if str_eq(scheme, "tauri") || internal_host {
        Navigation::Stay
    } else if crate::formats::name_in(&schemes, scheme) {
        Navigation::OpenInBrowser
    } else {
        Navigation::Stay
    }
}

/// What closing the main window does.
#[derive(PartialEq, Eq, Structural, Clone, Copy, Debug)]
pub enum CloseAction {
    /// Quit the application.
    Exit,
    /// Hide the window; the application stays in the tray.
    HideToTray,
}

/// Closing the main window quits when the setting is `exit`, and hides it otherwise.
pub fn close_action(behavior: &str) -> (r: CloseAction)
    ensures
        r == (if behavior@ == "exit"@ { CloseAction::Exit } else { CloseAction::HideToTray }),
{
    if str_eq(behavior, "exit") {
        CloseAction::Exit
    } else {
        CloseAction::HideToTray
    }
}

/// The first line of `text` as `str::lines` gives it (without its line break and a
/// carriage return before it), or `default` when `text` is empty.
pub open spec fn spec_first_line_or(text: Seq<char>, default: Seq<char>) -> Seq<char> {
    if text.len() == 0 {
        default
    } else {
        let line = crate::text::before_first(text, "\n"@);
        if line.len() > 0 && line.last() == '\r' { line.drop_last() } else { line }
    }
}

/// The first line of `text`, or `default` when there is none (the version line of
/// `ffmpeg -version`).
pub fn first_line_or(text: &str, default: &str) -> (r: String)
    ensures
        r@ == spec_first_line_or(text@, default@),
{
    let cs = chars_of(text);
    if cs.len() == 0 {
        return default.to_owned();
    }
    let nl = chars_of("\n");
    let line = crate::text::take_until(&cs, &nl);
    if line.len() > 0 && line[line.len() - 1] == '\r' {
        let l = sub_chars(&line, 0, line.len() - 1);
        assert(l@ =~= line@.drop_last());
        string_of(&l)
    } else {
        string_of(&line)
    }
}

/// The page of a desktop notice up to its message.
pub const TOAST_HEAD: &'static str = "<!DOCTYPE html>\n<html>\n<head><meta charset=\"utf-8\"><style>\n* { margin: 0; padding: 0; box-sizing: border-box; }\nbody {\n  background: transparent;\n  overflow: hidden;\n  -webkit-user-select: none;\n  user-select: none;\n  display: flex;\n  align-items: center;\n  justify-content: center;\n  height: 100vh;\n}\n.toast {\n  background: #dcfce7;\n  color: #166534;\n  padding: 10px 24px;\n  border-radius: 8px;\n  font-size: 14px;\n  font-weight: 500;\n  font-family: system-ui, -apple-system, sans-serif;\n  box-shadow: 0 4px 16px rgba(0,0,0,0.12);\n  border: 1px solid #bbf7d0;\n  text-align: center;\n  white-space: nowrap;\n  animation: fadeIn 0.3s ease;\n}\n@keyframes fadeIn { from { opacity: 0; } to { opacity: 1; } }\n</style></head>\n<body><div class=\"toast\">";

/// The page of a desktop notice after its message.
pub const TOAST_TAIL: &'static str = "</div></body></html>";

/// The page of a desktop notice showing `message`.
pub fn toast_html(message: &str) -> (r: String)
    ensures
        r@ == TOAST_HEAD@ + message@ + TOAST_TAIL@,
{
    let mut out: Vec<char> = Vec::new();
    push_str_chars(&mut out, TOAST_HEAD);
    push_str_chars(&mut out, message);
    push_str_chars(&mut out, TOAST_TAIL);
    string_of(&out)
}

proof fn lemma_fallback_names_plain(crashed: Seq<char>)
    ensures
        forall|k: int|
            0 <= k < spec_crash_fallbacks(crashed).len() ==> plain_file_name(#[trigger] spec_crash_fallbacks(crashed)[k]),
{
    reveal_strlit("sense-voice-small");
    reveal_strlit("paraformer");
    reveal_strlit("qwen3-asr");
    reveal_strlit("qwen3-asr-1.7b");
}

/// The characters of a model name, if there is one.
pub open spec fn name_view(r: Option<&str>) -> Option<Seq<char>> {
    match r {
        Some(n) => Some(n@),
        None => None,
    }
}

/// `b` is an answer the installation check of the fallback model `name` can give for
/// its directory under `model_path`.
pub open spec fn fallback_answer(model_path: Seq<char>, name: Seq<char>, b: bool) -> bool {
    exists|d: Seq<char>| joins_to(model_path, name, d) && #[trigger] installed_answer(d, spec_fallback_kind(name), b)
}

/// What the fallback search after a crash of `crashed` may answer, given what the
/// checks of the disk answered (`flags`, one per fallback model checked, in order):
/// each flag is an answer of that model's installation check of its directory under
/// `model_path`, every check but the last said "not installed", and the answer is the
/// model of the last check when it said "installed", or nothing once every fallback was
/// checked.
pub open spec fn recovery_outcome(model_path: Seq<char>, crashed: Seq<char>, flags: Seq<bool>, r: Option<Seq<char>>) -> bool {
    let list = spec_crash_fallbacks(crashed);
    &&& flags.len() <= list.len()
    &&& forall|k: int| 0 <= k < flags.len() ==> #[trigger] fallback_answer(model_path, list[k], flags[k])
    &&& forall|k: int| 0 <= k < flags.len() - 1 ==> !#[trigger] flags[k]
    &&& match r {
        Some(n) => flags.len() > 0 && flags.last() && n == list[flags.len() - 1],
        None => flags.len() == list.len() && forall|k: int| 0 <= k < flags.len() ==> !#[trigger] flags[k],
    }
}

/// After the named model crashed the application while loading: the first fallback
/// model that is installed under `model_path`, in the fallback order. The models are
/// checked in that order until one is installed; which ones are depends on the disk.
pub fn crash_recovery_model(model_path: &str, crashed: &str) -> (r: Option<&'static str>)
    ensures
        exists|flags: Seq<bool>|
            #[trigger] recovery_outcome(model_path@, crashed@, flags, name_view(r)),
{
    let names = crash_fallbacks(crashed);
    let ghost list = spec_crash_fallbacks(crashed@);
    proof {
        lemma_fallback_names_plain(crashed@);
    }
    let mut flags: Vec<bool> = Vec::new();
    let mut k: usize = 0;
    while k < names.len()
        invariant
            k <= names@.len(),
            strs_view(names@) == list,
            list == spec_crash_fallbacks(crashed@),
            flags@.len() == k,
            forall|q: int| 0 <= q < k ==> !flags@[q],
            forall|q: int| 0 <= q < k ==> #[trigger] fallback_answer(model_path@, list[q], flags@[q]),
            forall|q: int| 0 <= q < list.len() ==> plain_file_name(#[trigger] list[q]),
        decreases names.len() - k,
    {
        assert(list[k as int] == names@[k as int]@);
        let dir = path_join(model_path, names[k]);
        let kind = fallback_kind(names[k]);
        let installed = is_installed_at(dir.as_str(), kind);
        assert(fallback_answer(model_path@, list[k as int], installed)) by {
            assert(joins_to(model_path@, list[k as int], dir@) && installed_answer(dir@, spec_fallback_kind(list[k as int]), installed));
        }
        let ghost before = flags@;
        flags.push(installed);
        assert forall|q: int| 0 <= q <= k implies #[trigger] fallback_answer(model_path@, list[q], flags@[q]) by {
            if q < k {
                assert(flags@[q] == before[q]);
            }
        }
        if installed {
            assert(flags@.last());
            assert(recovery_outcome(model_path@, crashed@, flags@, Some(names[k as int]@)));
            return Some(names[k]);
        }
        k = k + 1;
    }
    assert(recovery_outcome(model_path@, crashed@, flags@, None));
    None
}

} // verus!
