//! The property list with which launchd starts the daemon.

use vstd::prelude::*;

use crate::paths;
use crate::paths::join_path;
use crate::text;

verus! {

pub const SEARCH_PATH: &'static str = "/.local/bin:/opt/homebrew/bin:/usr/local/bin:/usr/bin:/bin:/usr/sbin:/sbin";

pub const SOCKET: &'static str = ".openclaw/subspace-daemon/daemon.sock";

pub const TMUX_LOG: &'static str = ".local/state/subspace-daemon/tmux-daemon.log";

pub const SUPERVISOR_HEAD: &'static str = "TMUX=/opt/homebrew/bin/tmux; SESSION=subspace-daemon-live; ANCHOR=subspace-daemon-anchor; SOCKET='";

pub const SUPERVISOR_COMMAND: &'static str = "'; CMD=\"";

pub const SUPERVISOR_LOOP: &'static str = "\"; START_GRACE=180; FAILS=0; LAST_START=0; ensure_anchor() { \"$TMUX\" has-session -t \"$ANCHOR\" 2>/dev/null || \"$TMUX\" new-session -d -s \"$ANCHOR\" 'sleep 3650d'; }; start_session() { ensure_anchor; /bin/rm -f \"$SOCKET\"; \"$TMUX\" new-session -d -s \"$SESSION\" \"$CMD\"; LAST_START=$(/bin/date +%s); FAILS=0; }; ensure_anchor; while true; do NOW=$(/bin/date +%s); if ! \"$TMUX\" has-session -t \"$SESSION\" 2>/dev/null; then start_session; sleep 15; continue; fi; if /usr/bin/curl --max-time 10 --fail --unix-socket \"$SOCKET\" http://localhost/healthz >/dev/null 2>&1; then FAILS=0; elif [ $((NOW-LAST_START)) -lt \"$START_GRACE\" ]; then :; else FAILS=$((FAILS+1)); if [ \"$FAILS\" -ge 3 ]; then \"$TMUX\" kill-session -t \"$SESSION\" 2>/dev/null || true; start_session; fi; fi; sleep 30; done";

pub const PLIST_HEAD: &'static str = "<?xml version=\"1.0\" encoding=\"UTF-8\"?>\n<!DOCTYPE plist PUBLIC \"-//Apple//DTD PLIST 1.0//EN\" \"http://www.apple.com/DTDs/PropertyList-1.0.dtd\">\n<plist version=\"1.0\">\n  <dict>\n    <key>Label</key>\n    <string>ai.openclaw.subspace-daemon</string>\n    <key>ProgramArguments</key>\n    <array>\n      <string>/bin/zsh</string>\n      <string>-lc</string>\n      <string>";

pub const PLIST_DIRECTORY: &'static str = "</string>\n    </array>\n    <key>RunAtLoad</key>\n    <true/>\n    <key>KeepAlive</key>\n    <true/>\n    <key>WorkingDirectory</key>\n    <string>";

pub const PLIST_HOME: &'static str = "</string>\n    <key>EnvironmentVariables</key>\n    <dict>\n      <key>HOME</key>\n      <string>";

pub const PLIST_USER: &'static str = "</string>\n      <key>USER</key>\n      <string>";

pub const PLIST_PATH: &'static str = "</string>\n      <key>PATH</key>\n      <string>";

pub const PLIST_OUTPUT: &'static str = "</string>\n    </dict>\n    <key>StandardOutPath</key>\n    <string>";

pub const PLIST_ERRORS: &'static str = "/.openclaw/subspace-daemon/logs/stdout.log</string>\n    <key>StandardErrorPath</key>\n    <string>";

pub const PLIST_TAIL: &'static str = "/.openclaw/subspace-daemon/logs/stderr.log</string>\n  </dict>\n</plist>\n";

// ---------------------------------------------------------------------------
// XML
// ---------------------------------------------------------------------------

/// A character as it stands in an XML document.
pub open spec fn xml_char(c: char) -> Seq<char> {
    if c == '&' {
        "&amp;"@
    } else if c == '<' {
        "&lt;"@
    } else if c == '>' {
        "&gt;"@
    } else {
        seq![c]
    }
}

/// A text in which each character is spelled as given.
pub open spec fn spelled(value: Seq<char>, spelling: spec_fn(char) -> Seq<char>) -> Seq<char>
    decreases value.len(),
{
    if value.len() == 0 {
        Seq::empty()
    } else {
        spelling(value[0]) + spelled(value.skip(1), spelling)
    }
}

/// A text as it stands in an XML document: each character by itself.
pub open spec fn xml_escaped(value: Seq<char>) -> Seq<char> {
    spelled(value, |c: char| xml_char(c))
}

/// The text that an escaped one stands for.
pub open spec fn xml_unescaped(escaped: Seq<char>) -> Seq<char> {
    text::replaced(
        text::replaced(text::replaced(escaped, "&lt;"@, "<"@), "&gt;"@, ">"@),
        "&amp;"@,
        "&"@,
    )
}

/// A text as it stands in an XML document.
pub fn xml_escape(value: &str) -> (escaped: String)
    ensures
        escaped@ == xml_escaped(value@),
{
    proof {
        reveal_strlit("&");
        reveal_strlit("<");
        reveal_strlit(">");
        lemma_escaped_by_replacing(value@);
    }
    let ampersands = text::replace(value, "&", "&amp;");
    let opened = text::replace(ampersands.as_str(), "<", "&lt;");
    text::replace(opened.as_str(), ">", "&gt;")
}

/// `from` begins nowhere in `word`, whatever follows it.
spec fn clear_of(word: Seq<char>, from: Seq<char>) -> bool {
    forall|i: int|
        0 <= i < word.len() ==> (#[trigger] word[i] != from[0] || (from.len() > 1 && i + 1
            < word.len() && word[i + 1] != from[1]))
}

/// A word in which `from` begins nowhere stays as it is.
proof fn lemma_replaced_skips(word: Seq<char>, rest: Seq<char>, from: Seq<char>, to: Seq<char>)
    requires
        from.len() > 0,
        clear_of(word, from),
    ensures
        text::replaced(word + rest, from, to) == word + text::replaced(rest, from, to),
    decreases word.len(),
{
    if word.len() == 0 {
        assert(word + rest =~= rest);
        assert(word + text::replaced(rest, from, to) =~= text::replaced(rest, from, to));
    } else {
        let s = word + rest;
        let tail = word.skip(1);
        assert(s.skip(1) =~= tail + rest);
        assert(clear_of(tail, from)) by {
            assert forall|i: int| 0 <= i < tail.len() implies (#[trigger] tail[i] != from[0] || (
            from.len() > 1 && i + 1 < tail.len() && tail[i + 1] != from[1])) by {
                assert(tail[i] == word[i + 1]);
            }
        }
        lemma_replaced_skips(tail, rest, from, to);
        assert(seq![word[0]] + (tail + text::replaced(rest, from, to)) =~= word + text::replaced(
            rest,
            from,
            to,
        ));
        if s.len() < from.len() {
            assert(text::replaced(rest, from, to) == rest);
        } else {
            assert(!text::has_prefix(s, from)) by {
                if text::has_prefix(s, from) {
                    assert(s[0] == s.take(from.len() as int)[0]);
                    assert(word[0] == s[0]);
                    assert(s[1] == s.take(from.len() as int)[1]);
                }
            }
        }
    }
}

/// Replacing `from` by `to` turns one spelling into another that differs from it in that.
proof fn lemma_replaced_spelling(
    value: Seq<char>,
    one: spec_fn(char) -> Seq<char>,
    other: spec_fn(char) -> Seq<char>,
    from: Seq<char>,
    to: Seq<char>,
)
    requires
        from.len() > 0,
        forall|c: char|
            (#[trigger] one(c) == from && other(c) == to) || (one(c) == other(c) && clear_of(
                one(c),
                from,
            )),
    ensures
        text::replaced(spelled(value, one), from, to) == spelled(value, other),
    decreases value.len(),
{
    if value.len() > 0 {
        let rest = spelled(value.skip(1), one);
        lemma_replaced_spelling(value.skip(1), one, other, from, to);
        if one(value[0]) == from && other(value[0]) == to {
            let s = from + rest;
            assert(s.take(from.len() as int) =~= from);
            assert(s.skip(from.len() as int) =~= rest);
        } else {
            lemma_replaced_skips(one(value[0]), rest, from, to);
        }
    }
}

proof fn lemma_spelled_as_it_is(value: Seq<char>)
    ensures
        spelled(value, |c: char| seq![c]) == value,
    decreases value.len(),
{
    if value.len() > 0 {
        lemma_spelled_as_it_is(value.skip(1));
        assert(seq![value[0]] + value.skip(1) =~= value);
    }
}

proof fn lemma_literals()
    ensures
        "&"@ == seq!['&'],
        "<"@ == seq!['<'],
        ">"@ == seq!['>'],
        "&amp;"@ == seq!['&', 'a', 'm', 'p', ';'],
        "&lt;"@ == seq!['&', 'l', 't', ';'],
        "&gt;"@ == seq!['&', 'g', 't', ';'],
{
    reveal_strlit("&");
    reveal_strlit("<");
    reveal_strlit(">");
    reveal_strlit("&amp;");
    reveal_strlit("&lt;");
    reveal_strlit("&gt;");
    assert("&"@ =~= seq!['&']);
    assert("<"@ =~= seq!['<']);
    assert(">"@ =~= seq!['>']);
    assert("&amp;"@ =~= seq!['&', 'a', 'm', 'p', ';']);
    assert("&lt;"@ =~= seq!['&', 'l', 't', ';']);
    assert("&gt;"@ =~= seq!['&', 'g', 't', ';']);
}

/// The characters are spelled as asked by replacing one after the other, the ampersand first.
proof fn lemma_escaped_by_replacing(value: Seq<char>)
    ensures
        text::replaced(
            text::replaced(text::replaced(value, "&"@, "&amp;"@), "<"@, "&lt;"@),
            ">"@,
            "&gt;"@,
        ) == xml_escaped(value),
{
    lemma_literals();
    let plain = |c: char| seq![c];
    let amp = |c: char| if c == '&' { "&amp;"@ } else { seq![c] };
    let lt = |c: char| if c == '<' { "&lt;"@ } else { amp(c) };
    let all = |c: char| xml_char(c);
    lemma_spelled_as_it_is(value);
    lemma_replaced_spelling(value, plain, amp, "&"@, "&amp;"@);
    lemma_replaced_spelling(value, amp, lt, "<"@, "&lt;"@);
    lemma_replaced_spelling(value, lt, all, ">"@, "&gt;"@);
}

/// Undoing the replacements, the ampersand last, gives the text back.
pub proof fn law_unescaping_gives_the_text_back(value: Seq<char>)
    ensures
        xml_unescaped(xml_escaped(value)) == value,
{
    lemma_literals();
    let plain = |c: char| seq![c];
    let all = |c: char| xml_char(c);
    let amp_gt = |c: char| if c == '<' { "<"@ } else { xml_char(c) };
    let amp = |c: char| if c == '&' { "&amp;"@ } else { seq![c] };
    lemma_replaced_spelling(value, all, amp_gt, "&lt;"@, "<"@);
    lemma_replaced_spelling(value, amp_gt, amp, "&gt;"@, ">"@);
    lemma_replaced_spelling(value, amp, plain, "&amp;"@, "&"@);
    lemma_spelled_as_it_is(value);
}

/// Two texts can be escaped one by one.
pub proof fn law_escaping_goes_piece_by_piece(a: Seq<char>, b: Seq<char>)
    ensures
        xml_escaped(a + b) == xml_escaped(a) + xml_escaped(b),
    decreases a.len(),
{
    if a.len() == 0 {
        assert(a + b =~= b);
        assert(xml_escaped(a) + xml_escaped(b) =~= xml_escaped(b));
    } else {
        law_escaping_goes_piece_by_piece(a.skip(1), b);
        assert((a + b).skip(1) =~= a.skip(1) + b);
        assert(xml_char(a[0]) + (xml_escaped(a.skip(1)) + xml_escaped(b)) =~= (xml_char(a[0])
            + xml_escaped(a.skip(1))) + xml_escaped(b));
    }
}

/// `c` does not occur in `s`.
pub open spec fn free_of(s: Seq<char>, c: char) -> bool {
    forall|i: int| 0 <= i < s.len() ==> #[trigger] s[i] != c
}

/// What stands for a character that XML reserves begins at the place `i`.
pub open spec fn entity_at(s: Seq<char>, i: int) -> bool {
    let rest = s.skip(i);
    text::has_prefix(rest, "&amp;"@) || text::has_prefix(rest, "&lt;"@) || text::has_prefix(
        rest,
        "&gt;"@,
    )
}

/// An escaped text holds no markup: no angle bracket, and no ampersand but those that begin what
/// stands for a reserved character.
pub proof fn law_escaped_text_holds_no_markup(value: Seq<char>)
    ensures
        free_of(xml_escaped(value), '<'),
        free_of(xml_escaped(value), '>'),
        forall|i: int|
            0 <= i < xml_escaped(value).len() && #[trigger] xml_escaped(value)[i] == '&'
                ==> entity_at(xml_escaped(value), i),
    decreases value.len(),
{
    if value.len() > 0 {
        lemma_literals();
        law_escaped_text_holds_no_markup(value.skip(1));
        let word = xml_char(value[0]);
        let rest = xml_escaped(value.skip(1));
        let escaped = xml_escaped(value);
        assert(escaped == word + rest);
        assert forall|i: int| 0 <= i < escaped.len() && #[trigger] escaped[i] == '&' implies entity_at(
            escaped,
            i,
        ) by {
            if i < word.len() {
                assert(word[i] == '&');
                assert(escaped.skip(0).take(word.len() as int) =~= word);
            } else {
                assert(rest[i - word.len()] == '&');
                assert(escaped.skip(i) =~= rest.skip(i - word.len()));
            }
        }
        assert forall|i: int| 0 <= i < escaped.len() implies #[trigger] escaped[i] != '<' && escaped[i]
            != '>' by {
            if i < word.len() {
                assert(escaped[i] == word[i]);
            } else {
                assert(escaped[i] == rest[i - word.len()]);
            }
        }
    }
}

// ---------------------------------------------------------------------------
// The property list
// ---------------------------------------------------------------------------

/// A path without what follows its last name: slashes, and components that stand for the directory
/// itself.
pub open spec fn without_end(path: Seq<char>) -> Seq<char>
    decreases path.len(),
{
    if path.len() > 0 && path.last() == '/' {
        without_end(path.drop_last())
    } else if path.len() > 1 && path.last() == '.' && path[path.len() - 2] == '/' {
        without_end(path.drop_last())
    } else {
        path
    }
}

/// What follows the last slash.
pub open spec fn after_last_slash(path: Seq<char>) -> Seq<char>
    decreases path.len(),
{
    if path.len() == 0 || path.last() == '/' {
        Seq::empty()
    } else {
        after_last_slash(path.drop_last()).push(path.last())
    }
}

/// The last name in a path, or nothing where the path does not end in a name.
pub open spec fn file_name(path: Seq<char>) -> Seq<char> {
    let name = after_last_slash(without_end(path));
    if name == seq!['.'] || name == seq!['.', '.'] {
        Seq::empty()
    } else {
        name
    }
}

/// The last name in a path.
fn last_name(path: &str) -> (name: &str)
    ensures
        name@ == file_name(path@),
{
    let chars = text::chars_of(path);
    let mut end: usize = chars.len();
    assert(path@.take(end as int) =~= path@);
    while end > 0 && (chars[end - 1] == '/' || (end > 1 && chars[end - 1] == '.' && chars[end - 2]
        == '/'))
        invariant
            end <= chars.len(),
            chars@ == path@,
            without_end(path@) == without_end(path@.take(end as int)),
        decreases end,
    {
        assert(path@.take(end as int).drop_last() =~= path@.take(end - 1));
        end = end - 1;
    }
    let ghost body = path@.take(end as int);
    assert(without_end(path@) == body);
    let mut start: usize = end;
    assert(body.take(start as int) =~= body);
    assert(body.skip(start as int) =~= Seq::<char>::empty());
    assert(after_last_slash(body) =~= after_last_slash(body.take(start as int)) + body.skip(
        start as int,
    ));
    while start > 0 && chars[start - 1] != '/'
        invariant
            start <= end <= chars.len(),
            chars@ == path@,
            body == path@.take(end as int),
            after_last_slash(body) == after_last_slash(body.take(start as int)) + body.skip(
                start as int,
            ),
        decreases start,
    {
        assert(body.take(start as int).drop_last() =~= body.take(start - 1));
        assert(after_last_slash(body.take(start as int)) + body.skip(start as int)
            =~= after_last_slash(body.take(start - 1)) + body.skip(start - 1));
        start = start - 1;
    }
    assert(after_last_slash(body.take(start as int)) =~= Seq::<char>::empty());
    assert(body.skip(start as int) =~= path@.subrange(start as int, end as int));
    let name = path.substring_char(start, end);
    assert(name@ =~= after_last_slash(body));
    proof {
        reveal_strlit(".");
        reveal_strlit("..");
        reveal_strlit("");
        assert("."@ =~= seq!['.']);
        assert(".."@ =~= seq!['.', '.']);
        assert(""@ =~= Seq::<char>::empty());
    }
    if text::same_text(name, ".") || text::same_text(name, "..") {
        ""
    } else {
        name
    }
}

/// The directories in which the daemon finds its tools.
pub open spec fn search_path(home: Seq<char>) -> Seq<char> {
    home + SEARCH_PATH@
}

/// The command that runs the daemon in a clean environment.
pub open spec fn daemon_command(
    binary: Seq<char>,
    config: Seq<char>,
    home: Seq<char>,
) -> Seq<char> {
    "env -i HOME='"@ + home + "' USER='"@ + file_name(home) + "' PATH='"@ + search_path(home)
        + "' '"@ + binary + "' serve --config '"@ + config + "' 2>&1 | tee -a '"@
        + paths::joined_path(home, TMUX_LOG@) + "'"@
}

/// The command that starts the daemon and starts it again when it no longer answers.
pub open spec fn supervisor_command(
    binary: Seq<char>,
    config: Seq<char>,
    home: Seq<char>,
) -> Seq<char> {
    SUPERVISOR_HEAD@ + paths::joined_path(home, SOCKET@) + SUPERVISOR_COMMAND@ + daemon_command(
        binary,
        config,
        home,
    ) + SUPERVISOR_LOOP@
}

/// The property list.
pub open spec fn launchd_plist(
    binary: Seq<char>,
    config: Seq<char>,
    home: Seq<char>,
) -> Seq<char> {
    PLIST_HEAD@ + xml_escaped(supervisor_command(binary, config, home)) + PLIST_DIRECTORY@ + home
        + PLIST_HOME@ + home + PLIST_USER@ + file_name(home) + PLIST_PATH@ + search_path(home)
        + PLIST_OUTPUT@ + home + PLIST_ERRORS@ + home + PLIST_TAIL@
}

fn build_supervisor_command(
    binary_path: &str,
    config_path: &str,
    home: &str,
    user: &str,
    search: &str,
) -> (command: String)
    requires
        user@ == file_name(home@),
        search@ == search_path(home@),
    ensures
        command@ == supervisor_command(binary_path@, config_path@, home@),
{
    let mut daemon = "env -i HOME='".to_owned();
    daemon.append(home);
    daemon.append("' USER='");
    daemon.append(user);
    daemon.append("' PATH='");
    daemon.append(search);
    daemon.append("' '");
    daemon.append(binary_path);
    daemon.append("' serve --config '");
    daemon.append(config_path);
    daemon.append("' 2>&1 | tee -a '");
    daemon.append(join_path(home, TMUX_LOG).as_str());
    daemon.append("'");

    let mut command = SUPERVISOR_HEAD.to_owned();
    command.append(join_path(home, SOCKET).as_str());
    command.append(SUPERVISOR_COMMAND);
    command.append(daemon.as_str());
    command.append(SUPERVISOR_LOOP);
    command
}

/// The property list with which launchd starts the daemon, for a user with the given home
/// directory.
pub fn render_launchd_plist(binary_path: &str, config_path: &str, home: &str) -> (plist: String)
    ensures
        plist@ == launchd_plist(binary_path@, config_path@, home@),
{
    let user = last_name(home);
    let mut search = home.to_owned();
    search.append(SEARCH_PATH);
    let command = build_supervisor_command(
        binary_path,
        config_path,
        home,
        user,
        search.as_str(),
    );
    let mut plist = PLIST_HEAD.to_owned();
    plist.append(xml_escape(command.as_str()).as_str());
    plist.append(PLIST_DIRECTORY);
    plist.append(home);
    plist.append(PLIST_HOME);
    plist.append(home);
    plist.append(PLIST_USER);
    plist.append(user);
    plist.append(PLIST_PATH);
    plist.append(search.as_str());
    plist.append(PLIST_OUTPUT);
    plist.append(home);
    plist.append(PLIST_ERRORS);
    plist.append(home);
    plist.append(PLIST_TAIL);
    plist
}

/// The user of a home directory is the last part of its path, with or without a slash at the end.
pub proof fn law_user_is_the_name_of_the_home(directory: Seq<char>, name: Seq<char>)
    requires
        name.len() > 0,
        free_of(name, '/'),
        name != seq!['.'],
        name != seq!['.', '.'],
    ensures
        file_name(directory + seq!['/'] + name) == name,
        file_name((directory + seq!['/'] + name).push('/')) == name,
{
    let path = directory + seq!['/'] + name;
    let n = path.len() as int;
    let d = directory.len() as int;
    assert(path.last() == name.last());
    assert(without_end(path) == path) by {
        if path.last() == '.' && path[n - 2] == '/' {
            if name.len() > 1 {
                assert(path[n - 2] == name[name.len() - 2]);
            } else {
                assert(name =~= seq!['.']);
            }
        }
    }
    assert(path.push('/').drop_last() =~= path);
    lemma_after_last_slash(directory, name);
}

proof fn lemma_after_last_slash(directory: Seq<char>, name: Seq<char>)
    requires
        free_of(name, '/'),
    ensures
        after_last_slash(directory + seq!['/'] + name) == name,
    decreases name.len(),
{
    let path = directory + seq!['/'] + name;
    if name.len() == 0 {
        assert(path.last() == '/');
    } else {
        let rest = name.drop_last();
        assert(path.last() == name.last());
        assert(path.drop_last() =~= directory + seq!['/'] + rest);
        assert(forall|i: int| 0 <= i < rest.len() ==> #[trigger] rest[i] == name[i]);
        lemma_after_last_slash(directory, rest);
        assert(rest.push(name.last()) =~= name);
    }
}

proof fn lemma_part(before: Seq<char>, part: Seq<char>, after: Seq<char>)
    ensures
        text::has_part(before + part + after, part),
{
    let all = before + part + after;
    let i: int = before.len() as int;
    assert(all.subrange(i, i + part.len()) =~= part);
}

/// The daemon is started with its configuration, in a clean environment that has the home directory and
/// the search path.
pub proof fn law_command_starts_the_daemon(binary: Seq<char>, config: Seq<char>, home: Seq<char>)
    ensures
        ({
            let command = daemon_command(binary, config, home);
            &&& text::has_part(command, "' '"@ + binary + "' serve --config '"@ + config)
            &&& ("env -i HOME='"@ + home + "' USER='"@ + file_name(home) + "' PATH='"@ + home
                + SEARCH_PATH@).is_prefix_of(command)
            &&& text::has_part(supervisor_command(binary, config, home), command)
            &&& text::has_part(
                supervisor_command(binary, config, home),
                paths::joined_path(home, SOCKET@),
            )
        }),
{
    let command = daemon_command(binary, config, home);
    let start = "' '"@ + binary + "' serve --config '"@ + config;
    let head = "env -i HOME='"@ + home + "' USER='"@ + file_name(home) + "' PATH='"@
        + search_path(home);
    let tail = "' 2>&1 | tee -a '"@ + paths::joined_path(home, TMUX_LOG@) + "'"@;
    assert(command =~= head + start + tail);
    lemma_part(head, start, tail);
    let shown = "env -i HOME='"@ + home + "' USER='"@ + file_name(home) + "' PATH='"@ + home
        + SEARCH_PATH@;
    assert(head =~= shown);
    assert(command.take(shown.len() as int) =~= shown);
    let whole = supervisor_command(binary, config, home);
    let before = SUPERVISOR_HEAD@ + paths::joined_path(home, SOCKET@) + SUPERVISOR_COMMAND@;
    lemma_part(before, command, SUPERVISOR_LOOP@);
    assert(whole =~= before + command + SUPERVISOR_LOOP@);
    let rest = SUPERVISOR_COMMAND@ + command + SUPERVISOR_LOOP@;
    lemma_part(SUPERVISOR_HEAD@, paths::joined_path(home, SOCKET@), rest);
    assert(whole =~= SUPERVISOR_HEAD@ + paths::joined_path(home, SOCKET@) + rest);
}

/// The job that is handed to the system runs the command, escaped, with the home directory as its
/// working directory and in its environment, and writes its output below it.
pub proof fn law_job_runs_the_command(binary: Seq<char>, config: Seq<char>, home: Seq<char>)
    ensures
        ({
            let plist = launchd_plist(binary, config, home);
            &&& (PLIST_HEAD@ + xml_escaped(
                supervisor_command(binary, config, home),
            )).is_prefix_of(plist)
            &&& text::has_part(plist, PLIST_DIRECTORY@ + home + PLIST_HOME@ + home)
            &&& text::has_part(plist, PLIST_USER@ + file_name(home) + PLIST_PATH@ + home)
            &&& (PLIST_OUTPUT@ + home + PLIST_ERRORS@ + home + PLIST_TAIL@).is_suffix_of(plist)
        }),
{
    let plist = launchd_plist(binary, config, home);
    let head = PLIST_HEAD@ + xml_escaped(supervisor_command(binary, config, home));
    let homes = PLIST_DIRECTORY@ + home + PLIST_HOME@ + home;
    let user = PLIST_USER@ + file_name(home) + PLIST_PATH@ + home;
    let outputs = PLIST_OUTPUT@ + home + PLIST_ERRORS@ + home + PLIST_TAIL@;
    assert(plist =~= head + homes + user + SEARCH_PATH@ + outputs);
    assert(plist.take(head.len() as int) =~= head);
    assert(plist.skip(plist.len() - outputs.len()) =~= outputs);
    lemma_part(head, homes, user + SEARCH_PATH@ + outputs);
    assert(plist =~= head + homes + (user + SEARCH_PATH@ + outputs));
    lemma_part(head + homes, user, SEARCH_PATH@ + outputs);
    assert(plist =~= head + homes + user + (SEARCH_PATH@ + outputs));
}

} // verus!
