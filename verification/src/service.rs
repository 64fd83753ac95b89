//! The daemon under the user's service manager: the files that register it with launchd and
//! systemd, and what the manager says of it.

use crate::lines;
use crate::paths;
use crate::paths::path_join;
use crate::scheduler::floor_mod;
use crate::text;
use crate::text::{chars_of, parse_i64, signed_decimal_text, starts_with, trim};
use vstd::prelude::*;
use vstd::string::*;

verus! {

/// The label that launchd knows the daemon by.
pub const LAUNCHD_LABEL: &'static str = "com.dbtlr.periodic.daemon";

/// The unit that systemd knows the daemon by, without its suffix.
pub const SYSTEMD_UNIT: &'static str = "periodic";

// ----------------------------------------------------------------------------- launchd

/// The path of the property list under the home directory.
pub fn plist_path(home: &str) -> (r: String)
    ensures
        r@ == paths::joined_path(
            paths::joined_path(home@, "Library/LaunchAgents"@),
            LAUNCHD_LABEL@ + ".plist"@,
        ),
{
    let mut name = LAUNCHD_LABEL.to_owned();
    name.append(".plist");
    path_join(path_join(home, "Library/LaunchAgents").as_str(), name.as_str())
}

/// The directory that the daemon's own output is captured in.
pub fn log_dir(home: &str) -> (r: String)
    ensures
        r@ == paths::joined_path(home@, ".local/state/periodic"@),
{
    path_join(home, ".local/state/periodic")
}

/// An entry of a property list: a key with a text as its value.
pub open spec fn plist_text_entry(key: Seq<char>, value: Seq<char>) -> Seq<char> {
    "    <key>"@ + key + "</key>\n    <string>"@ + value + "</string>\n"@
}

/// An entry of a property list that switches something on.
pub open spec fn plist_true_entry(key: Seq<char>) -> Seq<char> {
    "    <key>"@ + key + "</key>\n    <true/>\n"@
}

/// The command that the property list starts the daemon with.
pub open spec fn plist_arguments(exe: Seq<char>) -> Seq<char> {
    "    <key>ProgramArguments</key>\n    <array>\n        <string>"@ + exe
        + "</string>\n        <string>daemon</string>\n        <string>start</string>\n        <string>--foreground</string>\n    </array>\n"@
}

/// The property list that registers the daemon with launchd: it starts the executable in the
/// foreground at login, keeps it alive, and captures its output under `log_dir`.
pub open spec fn plist_text(exe: Seq<char>, log_dir: Seq<char>) -> Seq<char> {
    "<?xml version=\"1.0\" encoding=\"UTF-8\"?>\n<!DOCTYPE plist PUBLIC \"-//Apple//DTD PLIST 1.0//EN\" \"http://www.apple.com/DTDs/PropertyList-1.0.dtd\">\n<plist version=\"1.0\">\n<dict>\n"@
        + plist_text_entry("Label"@, LAUNCHD_LABEL@) + plist_arguments(exe) + plist_true_entry(
        "RunAtLoad"@,
    ) + plist_true_entry("KeepAlive"@) + plist_text_entry(
        "StandardOutPath"@,
        paths::joined_path(log_dir, "daemon.out.log"@),
    ) + plist_text_entry("StandardErrorPath"@, paths::joined_path(log_dir, "daemon.err.log"@))
        + "</dict>\n</plist>\n"@
}

fn put_text_entry(s: &mut String, key: &str, value: &str)
    ensures
        final(s)@ == old(s)@ + plist_text_entry(key@, value@),
{
    let ghost before = s@;
    s.append("    <key>");
    s.append(key);
    s.append("</key>\n    <string>");
    s.append(value);
    s.append("</string>\n");
    assert(s@ =~= before + plist_text_entry(key@, value@));
}

fn put_true_entry(s: &mut String, key: &str)
    ensures
        final(s)@ == old(s)@ + plist_true_entry(key@),
{
    let ghost before = s@;
    s.append("    <key>");
    s.append(key);
    s.append("</key>\n    <true/>\n");
    assert(s@ =~= before + plist_true_entry(key@));
}

fn put_arguments(s: &mut String, exe: &str)
    ensures
        final(s)@ == old(s)@ + plist_arguments(exe@),
{
    let ghost before = s@;
    s.append("    <key>ProgramArguments</key>\n    <array>\n        <string>");
    s.append(exe);
    s.append(
        "</string>\n        <string>daemon</string>\n        <string>start</string>\n        <string>--foreground</string>\n    </array>\n",
    );
    assert(s@ =~= before + plist_arguments(exe@));
}

/// The property list that registers the daemon with launchd.
pub fn plist_contents(exe: &str, log_dir: &str) -> (r: String)
    ensures
        r@ == plist_text(exe@, log_dir@),
{
    let out_path = path_join(log_dir, "daemon.out.log");
    let err_path = path_join(log_dir, "daemon.err.log");
    let mut s =
        "<?xml version=\"1.0\" encoding=\"UTF-8\"?>\n<!DOCTYPE plist PUBLIC \"-//Apple//DTD PLIST 1.0//EN\" \"http://www.apple.com/DTDs/PropertyList-1.0.dtd\">\n<plist version=\"1.0\">\n<dict>\n".to_owned();
    put_text_entry(&mut s, "Label", LAUNCHD_LABEL);
    put_arguments(&mut s, exe);
    put_true_entry(&mut s, "RunAtLoad");
    put_true_entry(&mut s, "KeepAlive");
    put_text_entry(&mut s, "StandardOutPath", out_path.as_str());
    put_text_entry(&mut s, "StandardErrorPath", err_path.as_str());
    s.append("</dict>\n</plist>\n");
    s
}

/// What launchd says of a daemon that is loaded: its process, where it is running.
#[derive(Debug, Clone, Copy, PartialEq, Eq, Structural)]
pub struct LaunchctlStatus {
    pub pid: Option<i64>,
}

/// The text without the spaces and equals signs that it begins with.
pub open spec fn after_equals(s: Seq<char>) -> Seq<char>
    decreases s.len(),
{
    if s.len() > 0 && (s[0] == ' ' || s[0] == '=') {
        after_equals(s.drop_first())
    } else {
        s
    }
}

/// The text without the semicolons that it ends with.
pub open spec fn before_semicolons(s: Seq<char>) -> Seq<char>
    decreases s.len(),
{
    if s.len() > 0 && s.last() == ';' {
        before_semicolons(s.drop_last())
    } else {
        s
    }
}

/// The process that a line names, where it is of the form `"PID" = 42;`.
pub open spec fn pid_in_line(line: Seq<char>) -> Option<int> {
    let t = text::trimmed(line);
    if "\"PID\""@.is_prefix_of(t) {
        text::signed(text::trimmed(before_semicolons(after_equals(t.skip(5)))))
    } else {
        None
    }
}

/// The first process that a line names.
pub open spec fn pid_in_lines(ls: Seq<Seq<char>>) -> Option<int>
    decreases ls.len(),
{
    if ls.len() == 0 {
        None
    } else {
        match pid_in_line(ls[0]) {
            Some(pid) => Some(pid),
            None => pid_in_lines(ls.drop_first()),
        }
    }
}

fn skip_equals(s: &str) -> (r: &str)
    ensures
        r@ == after_equals(s@),
{
    let v = chars_of(s);
    let n = v.len();
    let mut i: usize = 0;
    assert(s@.skip(0) =~= s@);
    while i < n && (v[i] == ' ' || v[i] == '=')
        invariant
            n == v@.len(),
            v@ == s@,
            i <= n,
            after_equals(s@.skip(i as int)) == after_equals(s@),
        decreases n - i,
    {
        assert(s@.skip(i as int).drop_first() =~= s@.skip(i as int + 1));
        i += 1;
    }
    let r = s.substring_char(i, n);
    assert(r@ =~= s@.skip(i as int));
    r
}

fn drop_semicolons(s: &str) -> (r: &str)
    ensures
        r@ == before_semicolons(s@),
{
    let v = chars_of(s);
    let mut j: usize = v.len();
    assert(s@.take(j as int) =~= s@);
    while j > 0 && v[j - 1] == ';'
        invariant
            v@ == s@,
            j <= v@.len(),
            before_semicolons(s@.take(j as int)) == before_semicolons(s@),
        decreases j,
    {
        assert(s@.take(j as int).drop_last() =~= s@.take(j - 1));
        j -= 1;
    }
    let r = s.substring_char(0, j);
    assert(r@ =~= s@.take(j as int));
    r
}

fn line_pid(line: &str) -> (r: Option<i64>)
    ensures
        (match r {
            Some(pid) => pid_in_line(line@) == Some(pid as int),
            None => pid_in_line(line@) is None,
        }),
{
    proof {
        reveal_strlit("\"PID\"");
    }
    let t = trim(line);
    if !starts_with(t, "\"PID\"") {
        return None;
    }
    let n = t.unicode_len();
    let rest = t.substring_char(5, n);
    assert(rest@ =~= t@.skip(5));
    parse_i64(trim(drop_semicolons(skip_equals(rest))))
}

impl LaunchctlStatus {
    /// Reads what launchd lists of the daemon. A process that is missing, or is not a number,
    /// means that the daemon is loaded but not running.
    pub fn parse(text: &str) -> (r: LaunchctlStatus)
        ensures
            (match r.pid {
                Some(pid) => pid_in_lines(lines::lines_of(text@)) == Some(pid as int),
                None => pid_in_lines(lines::lines_of(text@)) is None,
            }),
    {
        let ls = lines::lines(text);
        let ghost all = text::views(ls@);
        let mut i: usize = 0;
        assert(all.skip(0) =~= all);
        while i < ls.len()
            invariant
                i <= ls@.len(),
                all == text::views(ls@),
                all == lines::lines_of(text@),
                pid_in_lines(all.skip(i as int)) == pid_in_lines(all),
            decreases ls.len() - i,
        {
            assert(all.skip(i as int)[0] == ls@[i as int]@);
            assert(all.skip(i as int).drop_first() =~= all.skip(i as int + 1));
            match line_pid(ls[i].as_str()) {
                Some(pid) => {
                    return LaunchctlStatus { pid: Some(pid) };
                },
                None => {},
            }
            i += 1;
        }
        LaunchctlStatus { pid: None }
    }

    pub fn render(&self, label: &str) -> (r: String)
        ensures
            r@ == (match self.pid {
                Some(pid) => "service: running (pid "@ + text::signed_decimal(pid as int) + ", "@
                    + label@ + ")\n"@,
                None => "service: loaded, not running ("@ + label@ + ")\n"@,
            }),
    {
        match self.pid {
            Some(pid) => {
                let mut r = "service: running (pid ".to_owned();
                r.append(signed_decimal_text(pid).as_str());
                r.append(", ");
                r.append(label);
                r.append(")\n");
                r
            },
            None => {
                let mut r = "service: loaded, not running (".to_owned();
                r.append(label);
                r.append(")\n");
                r
            },
        }
    }
}

// ----------------------------------------------------------------------------- systemd

/// The path of the unit file under the home directory.
pub fn unit_path(home: &str) -> (r: String)
    ensures
        r@ == paths::joined_path(
            paths::joined_path(home@, ".config/systemd/user"@),
            SYSTEMD_UNIT@ + ".service"@,
        ),
{
    let mut name = SYSTEMD_UNIT.to_owned();
    name.append(".service");
    path_join(path_join(home, ".config/systemd/user").as_str(), name.as_str())
}

/// The unit file that registers the daemon with systemd: it starts the executable in the
/// foreground, and again where it failed.
pub fn unit_contents(exe: &str) -> (r: String)
    ensures
        r@ == "[Unit]\nDescription=periodic user-space job scheduler daemon\n\n[Service]\nExecStart="@
            + exe@
            + " daemon start --foreground\nRestart=on-failure\n\n[Install]\nWantedBy=default.target\n"@,
{
    let mut r =
        "[Unit]\nDescription=periodic user-space job scheduler daemon\n\n[Service]\nExecStart=".to_owned();
    r.append(exe);
    r.append(
        " daemon start --foreground\nRestart=on-failure\n\n[Install]\nWantedBy=default.target\n",
    );
    r
}

/// The exit code to end with, given that of `systemctl`: its lowest eight bits, and 1 where it
/// was ended by a signal.
pub fn status(code: Option<i32>) -> (r: u8)
    ensures
        r as int == (match code {
            Some(c) => c as int % 256,
            None => 1,
        }),
{
    match code {
        Some(c) => floor_mod(c as i64, 256) as u8,
        None => 1,
    }
}

} // verus!
