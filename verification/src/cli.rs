//! The Plix command line: parses a line, runs the command against the session,
//! the Everyfile tree and the driver registry, and appends the answer to a
//! bounded output transcript.

use vstd::prelude::*;
use vstd::string::StringSliceAdditionalSpecFns;
use crate::cstr::{cstr, c_len, c_strlen, lemma_c_len, lemma_c_len_unique, lemma_cstr_of_plain,
    lemma_cstr_part, lemma_cstr_terminated_prefix, lit};
use crate::auth::{ROOT_USER, first_accepting, user_name, user_password_hash, user_power, user_salt,
    spec_hash_password, PlixSession, GUEST_USER, plix_auth_check_password, plix_auth_init,
    plix_auth_is_power_user, plix_auth_login, plix_auth_user_name};
use crate::everyfile::{child_named, current_path, goto_target, path_written, PlixEveryfile,
    is_initial_tree, is_initial_tree_at, GUEST_HOME_NODE, find_child_from,
    MAX_PATH, plix_everyfile_enter_user, plix_everyfile_goto, plix_everyfile_init,
    plix_everyfile_path, plix_everyfile_show, name_of};
use crate::driver::{bus_name, class_name, PlixDriverRegistry, PlixDriverView,
    plix_driver_bus_name, plix_driver_class_name, plix_driver_count, plix_driver_get};

verus! {

/// Size of the output transcript buffer; it holds `OUT_CAP - 1` bytes.
pub const OUT_CAP: usize = 512;
/// Size of the buffers that hold a user name or a password typed on the line.
pub const AUTH_MAX_NAME: usize = 16;
/// Most names that `show` lists.
pub const MAX_SHOW: usize = 8;

/// The byte ` `.
pub const SPACE: u8 = 32;
/// The byte `\t`.
pub const TAB: u8 = 9;

/// A command line: its output transcript, the Everyfile tree it browses and the
/// session it runs in.
pub struct PlixCli {
    pub output: Vec<u8>,
    pub fs: PlixEveryfile,
    pub session: PlixSession,
}

impl PlixCli {
    pub open spec fn wf(&self) -> bool {
        &&& self.output.len() < OUT_CAP
        &&& self.fs.wf()
        &&& self.session.wf()
    }

    /// A command line before initialization: empty transcript, initial tree,
    /// no user.
    pub fn new() -> (cli: PlixCli)
        ensures
            cli.wf(),
            cli.output@.len() == 0,
            is_initial_tree(cli.fs),
            cli.session.user is None,
            cli.session.authenticated == 0,
    {
        PlixCli { output: Vec::new(), fs: PlixEveryfile::new(), session: PlixSession::new() }
    }
}

/// The transcript after appending `text`: it keeps at most `OUT_CAP - 1` bytes
/// and drops whatever does not fit.
pub open spec fn appended(out: Seq<u8>, text: Seq<u8>) -> Seq<u8> {
    let all = out + text;
    if all.len() < OUT_CAP {
        all
    } else {
        all.take(OUT_CAP - 1)
    }
}

/// Appending twice is appending the concatenation.
pub proof fn lemma_appended_twice(out: Seq<u8>, a: Seq<u8>, b: Seq<u8>)
    requires
        out.len() < OUT_CAP,
    ensures
        appended(appended(out, a), b) == appended(out, a + b),
{
    assert(out + a + b =~= out + (a + b));
    if (out + a).len() >= OUT_CAP {
        assert(((out + a).take(OUT_CAP - 1) + b).take(OUT_CAP - 1) =~= (out + (a + b)).take(OUT_CAP - 1));
    } else if (out + a + b).len() >= OUT_CAP {
        assert(appended(out, a) == out + a);
    }
}

/// A space or a tab.
pub open spec fn is_blank(b: u8) -> bool {
    b == SPACE || b == TAB
}

/// The first position from `i` on that does not hold a blank.
pub open spec fn skip_blanks(s: Seq<u8>, i: int) -> int
    decreases s.len() - i,
{
    if 0 <= i < s.len() && is_blank(s[i]) {
        skip_blanks(s, i + 1)
    } else {
        i
    }
}

/// The first position from `i` on that holds a blank, or the end.
pub open spec fn token_end(s: Seq<u8>, i: int) -> int
    decreases s.len() - i,
{
    if 0 <= i < s.len() && !is_blank(s[i]) {
        token_end(s, i + 1)
    } else {
        i
    }
}

/// `s` with at most `AUTH_MAX_NAME - 1` bytes, as a user name or password
/// buffer holds it.
pub open spec fn clipped(s: Seq<u8>) -> Seq<u8> {
    if s.len() < AUTH_MAX_NAME {
        s
    } else {
        s.take(AUTH_MAX_NAME - 1)
    }
}

/// Name of the session's user, or `none`.
pub open spec fn session_name(session: PlixSession) -> Seq<u8> {
    match session.user {
        Some(i) => user_name(i as int),
        None => "none".spec_bytes(),
    }
}

/// The session may act as a power user.
pub open spec fn session_is_power(session: PlixSession) -> bool {
    match session.user {
        Some(i) => session.authenticated != 0 && user_power(i as int) != 0,
        None => false,
    }
}

/// `password` is the password of the session's user.
pub open spec fn session_password_ok(session: PlixSession, password: Seq<u8>) -> bool {
    match session.user {
        Some(i) => user_password_hash(i as int) == spec_hash_password(user_name(i as int), password, user_salt(i as int)),
        None => false,
    }
}

/// The path of the current directory as a `MAX_PATH` buffer holds it.
pub open spec fn path_text(fs: PlixEveryfile) -> Seq<u8> {
    cstr(current_path(fs).take(path_written(fs, MAX_PATH as int)))
}

/// `s` repeated `n` times.
pub open spec fn repeat(s: Seq<u8>, n: nat) -> Seq<u8>
    decreases n,
{
    if n == 0 {
        seq![]
    } else {
        repeat(s, (n - 1) as nat) + s
    }
}

/// The command overview.
pub open spec fn help_text() -> Seq<u8> {
    lit("help/?  pwd/pw  who  goto/gt <path>  show/sw  drivers/drv  login <user> <pass>  pudo <pass> <command>  status/st\n")
}

/// The answer to `status`: user, path and a `+` per loaded driver.
pub open spec fn status_text(fs: PlixEveryfile, session: PlixSession, drivers: Seq<PlixDriverView>) -> Seq<u8> {
    lit("user=") + cstr(session_name(session)) + lit(" path=") + path_text(fs) + lit(" drivers=") + if drivers.len() == 0 {
        lit("0\n")
    } else {
        repeat(lit("+"), drivers.len()) + lit("\n")
    }
}

/// The line that `drivers` prints for one driver: name, bus and class.
pub open spec fn driver_line(d: PlixDriverView) -> Seq<u8> {
    let name = match d.name {
        Some(n) => n,
        None => seq![],
    };
    cstr(name) + lit(" ") + cstr(bus_name(d.bus)) + lit(" ") + cstr(class_name(d.device_class)) + lit("\n")
}

/// The lines of the first `k` drivers.
pub open spec fn driver_lines(drivers: Seq<PlixDriverView>, k: int) -> Seq<u8>
    decreases k,
{
    if k <= 0 {
        seq![]
    } else {
        driver_lines(drivers, k - 1) + driver_line(drivers[k - 1])
    }
}

/// The answer to `drivers`.
pub open spec fn drivers_text(drivers: Seq<PlixDriverView>) -> Seq<u8> {
    if drivers.len() == 0 {
        lit("keine linux treiber geladen\n")
    } else {
        driver_lines(drivers, drivers.len() as int)
    }
}

/// The names of the first `k` children of the current directory, one per line.
pub open spec fn show_lines(fs: PlixEveryfile, k: int) -> Seq<u8>
    decreases k,
{
    if k <= 0 {
        seq![]
    } else {
        show_lines(fs, k - 1) + name_of(fs, fs.nodes[fs.current as int].children[k - 1] as int) + lit("\n")
    }
}

/// The answer to `show`.
pub open spec fn show_text(fs: PlixEveryfile) -> Seq<u8> {
    let count = fs.nodes[fs.current as int].children.len() as int;
    show_lines(fs, if count < MAX_SHOW { count } else { MAX_SHOW as int })
}

/// What a command does: its return code, the text it appends, and the tree and
/// session it leaves.
pub struct CliEffect {
    pub rc: i32,
    pub text: Seq<u8>,
    pub fs: PlixEveryfile,
    pub session: PlixSession,
}

/// An effect that changes neither the tree nor the session.
pub open spec fn answer(fs: PlixEveryfile, session: PlixSession, rc: i32, text: Seq<u8>) -> CliEffect {
    CliEffect { rc, text, fs, session }
}

/// `login <user> <password>`, where the user name starts at `a` in `l`.
#[verifier::opaque]
pub open spec fn login_effect(fs: PlixEveryfile, session: PlixSession, l: Seq<u8>, a: int) -> CliEffect {
    let name_end = token_end(l, a);
    let name = l.subrange(a, name_end);
    let p = skip_blanks(l, name_end);
    let password = l.subrange(p, l.len() as int);
    let user = clipped(name);
    if name.len() == 0 || password.len() == 0 {
        answer(fs, session, -1i32, lit("login braucht user und passwort\n"))
    } else {
        match first_accepting(user, password, 0) {
            None => answer(fs, session, -1i32, lit("login fehlgeschlagen\n")),
            Some(i) => {
                let logged_in = PlixSession { user: Some(i), authenticated: 1 };
                match child_named(fs, fs.users as int, cstr(user)) {
                    None => answer(fs, logged_in, -1i32, lit("login fehlgeschlagen\n")),
                    Some(home) => {
                        let entered = PlixEveryfile {
                            nodes: fs.nodes,
                            root: fs.root,
                            current: home,
                            active_user: home,
                            users: fs.users,
                        };
                        answer(entered, logged_in, 0i32, lit("angemeldet als ") + cstr(user_name(i as int)) + lit("\n"))
                    },
                }
            },
        }
    }
}

/// `goto <path>`.
#[verifier::opaque]
pub open spec fn goto_effect(fs: PlixEveryfile, session: PlixSession, path: Seq<u8>) -> CliEffect {
    if path.len() == 0 {
        answer(fs, session, -1i32, lit("goto braucht ein ziel\n"))
    } else {
        match goto_target(fs, path) {
            None => answer(fs, session, -1i32, lit("ziel nicht gefunden\n")),
            Some(c) => {
                let moved = PlixEveryfile {
                    nodes: fs.nodes,
                    root: fs.root,
                    current: c,
                    active_user: fs.active_user,
                    users: fs.users,
                };
                answer(moved, session, 0i32, lit("jetzt in ") + path_text(moved) + lit("\n"))
            },
        }
    }
}

/// `pudo <password> <command>`, where the password starts at `a` in `l`.
#[verifier::opaque]
pub open spec fn pudo_effect(fs: PlixEveryfile, session: PlixSession, l: Seq<u8>, a: int) -> CliEffect {
    let password_end = token_end(l, a);
    let password = l.subrange(a, password_end);
    let c = skip_blanks(l, password_end);
    let command = l.subrange(c, l.len() as int);
    if !session_is_power(session) || password.len() == 0 || !session_password_ok(session, clipped(password)) {
        answer(fs, session, -1i32, lit("pudo verweigert\n"))
    } else {
        answer(
            fs,
            session,
            0,
            lit("pudo erlaubt: ") + (if command.len() == 0 {
                lit("<leer>")
            } else {
                command
            }) + lit("\n"),
        )
    }
}

/// What running `line` does.
pub open spec fn cli_effect(
    fs: PlixEveryfile,
    session: PlixSession,
    drivers: Seq<PlixDriverView>,
    line: Seq<u8>,
) -> CliEffect {
    let l = cstr(line);
    let c = skip_blanks(l, 0);
    let command_end = token_end(l, c);
    let command = l.subrange(c, command_end);
    let a = skip_blanks(l, command_end);
    let argument = l.subrange(a, l.len() as int);
    if command == lit("help") || command == lit("?") {
        answer(fs, session, 0i32, help_text())
    } else if command == lit("pwd") || command == lit("pw") {
        answer(fs, session, 0i32, path_text(fs) + lit("\n"))
    } else if command == lit("status") || command == lit("st") {
        answer(fs, session, 0i32, status_text(fs, session, drivers))
    } else if command == lit("login") {
        login_effect(fs, session, l, a)
    } else if command == lit("who") {
        answer(fs, session, 0i32, cstr(session_name(session)) + lit("\n"))
    } else if command == lit("goto") || command == lit("gt") {
        goto_effect(fs, session, argument)
    } else if command == lit("show") || command == lit("sw") {
        answer(fs, session, 0i32, show_text(fs))
    } else if command == lit("drivers") || command == lit("drv") {
        answer(fs, session, 0i32, drivers_text(drivers))
    } else if command == lit("pudo") {
        pudo_effect(fs, session, l, a)
    } else if c == l.len() {
        answer(fs, session, 0i32, seq![])
    } else {
        answer(fs, session, -1i32, lit("unbekannter befehl; nutze help\n"))
    }
}

/// Appends one byte to the transcript, unless it is full.
fn append_char(cli: &mut PlixCli, value: u8)
    requires
        old(cli).wf(),
    ensures
        final(cli).wf(),
        final(cli).fs == old(cli).fs,
        final(cli).session == old(cli).session,
        final(cli).output@ == appended(old(cli).output@, seq![value]),
{
    if cli.output.len() + 1 < OUT_CAP {
        cli.output.push(value);
    }
    assert(cli.output@ =~= appended(old(cli).output@, seq![value]));
}

/// Appends the string held by `text` to the transcript.
fn append(cli: &mut PlixCli, text: &[u8])
    requires
        old(cli).wf(),
    ensures
        final(cli).wf(),
        final(cli).fs == old(cli).fs,
        final(cli).session == old(cli).session,
        final(cli).output@ == appended(old(cli).output@, cstr(text@)),
{
    let mut i: usize = 0;
    assert(old(cli).output@ =~= appended(old(cli).output@, text@.take(0)));
    while i < text.len() && text[i] != 0
        invariant
            cli.wf(),
            cli.fs == old(cli).fs,
            cli.session == old(cli).session,
            old(cli).output.len() < OUT_CAP,
            i <= text@.len(),
            forall|j: int| 0 <= j < i ==> text@[j] != 0,
            cli.output@ == appended(old(cli).output@, text@.take(i as int)),
        decreases text@.len() - i,
    {
        proof {
            lemma_appended_twice(old(cli).output@, text@.take(i as int), seq![text@[i as int]]);
            assert(text@.take(i as int) + seq![text@[i as int]] =~= text@.take(i + 1));
        }
        append_char(cli, text[i]);
        i = i + 1;
    }
    proof {
        lemma_c_len_unique(text@, i as nat);
    }
}

/// Appends the path of the current directory.
fn append_current_path(cli: &mut PlixCli)
    requires
        old(cli).wf(),
    ensures
        final(cli).wf(),
        final(cli).fs == old(cli).fs,
        final(cli).session == old(cli).session,
        final(cli).output@ == appended(old(cli).output@, path_text(old(cli).fs)),
{
    let mut path: Vec<u8> = vec![0u8; MAX_PATH];
    let written = plix_everyfile_path(&cli.fs, path.as_mut_slice(), MAX_PATH);
    proof {
        let full = current_path(cli.fs);
        let t = full.take(written as int);
        assert(path@.take(t.len() as int) =~= t);
        lemma_cstr_terminated_prefix(path@, t);
    }
    append(cli, path.as_slice());
}

/// The first position from `at` on, within the first `n` bytes, that holds no blank.
fn skip_spaces(text: &[u8], n: usize, at: usize) -> (next: usize)
    requires
        n <= text.len(),
        at <= n,
    ensures
        next == skip_blanks(text@.take(n as int), at as int),
        at <= next <= n,
{
    let ghost l = text@.take(n as int);
    let mut i = at;
    while i < n && (text[i] == SPACE || text[i] == TAB)
        invariant
            n <= text@.len(),
            at <= i <= n,
            l == text@.take(n as int),
            skip_blanks(l, at as int) == skip_blanks(l, i as int),
        decreases n - i,
    {
        i = i + 1;
    }
    i
}

/// Length of the token at `at`, within the first `n` bytes.
fn token_len(text: &[u8], n: usize, at: usize) -> (len: usize)
    requires
        n <= text.len(),
        at <= n,
    ensures
        at + len == token_end(text@.take(n as int), at as int),
        at + len <= n,
{
    let ghost l = text@.take(n as int);
    let mut i = at;
    while i < n && text[i] != SPACE && text[i] != TAB
        invariant
            n <= text@.len(),
            at <= i <= n,
            l == text@.take(n as int),
            token_end(l, at as int) == token_end(l, i as int),
        decreases n - i,
    {
        i = i + 1;
    }
    i - at
}

/// Whether `text[start..start + len]` is the string held by `expected`.
fn token_is(text: &[u8], start: usize, len: usize, expected: &[u8]) -> (is: bool)
    requires
        start + len <= text.len(),
    ensures
        is == (text@.subrange(start as int, start + len) == cstr(expected@)),
{
    let token = vstd::slice::slice_subrange(text, start, start + len);
    let mut i: usize = 0;
    while i < len && i < expected.len() && expected[i] != 0 && token[i] == expected[i]
        invariant
            token@.len() == len,
            i <= len,
            i <= expected@.len(),
            forall|j: int| 0 <= j < i ==> expected@[j] != 0 && token@[j] == expected@[j],
        decreases len - i,
    {
        i = i + 1;
    }
    let ended = i == expected.len() || expected[i] == 0;
    proof {
        lemma_c_len(expected@);
        let e = cstr(expected@);
        if ended {
            lemma_c_len_unique(expected@, i as nat);
            if i == len {
                assert(token@ =~= e);
            } else {
                assert(token@.len() != e.len());
            }
        } else {
            assert(c_len(expected@) > i) by {
                if c_len(expected@) <= i {
                    assert(expected@[c_len(expected@) as int] != 0);
                }
            }
            if i == len {
                assert(token@.len() != e.len());
            } else {
                assert(token@[i as int] != e[i as int]);
            }
        }
    }
    i == len && ended
}

/// The token at `start`, cut to `AUTH_MAX_NAME - 1` bytes.
fn copy_token(text: &[u8], start: usize, len: usize) -> (copy: Vec<u8>)
    requires
        start + len <= text.len(),
    ensures
        copy@ == clipped(text@.subrange(start as int, start + len)),
{
    let copied = if len < AUTH_MAX_NAME - 1 { len } else { AUTH_MAX_NAME - 1 };
    let mut copy: Vec<u8> = Vec::new();
    let mut i: usize = 0;
    while i < copied
        invariant
            copied <= len,
            start + len <= text.len(),
            i <= copied,
            copy@ == text@.subrange(start as int, start + i),
        decreases copied - i,
    {
        copy.push(text[start + i]);
        i = i + 1;
        assert(copy@ =~= text@.subrange(start as int, start + i));
    }
    copy
}

/// `after` is `before` with the effect `e` applied and `rc` returned.
pub open spec fn applied(before: PlixCli, after: PlixCli, rc: i32, e: CliEffect) -> bool {
    &&& rc == e.rc
    &&& after.output@ == appended(before.output@, e.text)
    &&& after.fs == e.fs
    &&& after.session == e.session
}

/// Appends a piece of an answer whose earlier pieces are `done`.
fn say(cli: &mut PlixCli, text: &[u8], Ghost(out): Ghost<Seq<u8>>, Ghost(done): Ghost<Seq<u8>>)
    requires
        old(cli).wf(),
        out.len() < OUT_CAP,
        old(cli).output@ == appended(out, done),
    ensures
        final(cli).wf(),
        final(cli).fs == old(cli).fs,
        final(cli).session == old(cli).session,
        final(cli).output@ == appended(out, done + cstr(text@)),
{
    append(cli, text);
    proof {
        lemma_appended_twice(out, done, cstr(text@));
    }
}

/// Says the path of the current directory as a further piece.
fn say_path(cli: &mut PlixCli, Ghost(out): Ghost<Seq<u8>>, Ghost(done): Ghost<Seq<u8>>)
    requires
        old(cli).wf(),
        out.len() < OUT_CAP,
        old(cli).output@ == appended(out, done),
    ensures
        final(cli).wf(),
        final(cli).fs == old(cli).fs,
        final(cli).session == old(cli).session,
        final(cli).output@ == appended(out, done + path_text(old(cli).fs)),
{
    append_current_path(cli);
    proof {
        lemma_appended_twice(out, done, path_text(old(cli).fs));
    }
}

/// `status`: the user, the path and one `+` per driver.
fn cmd_status(cli: &mut PlixCli, registry: &PlixDriverRegistry) -> (rc: i32)
    requires
        old(cli).wf(),
        registry.wf(),
    ensures
        final(cli).wf(),
        applied(*old(cli), *final(cli), rc, answer(old(cli).fs, old(cli).session, 0i32, status_text(old(cli).fs, old(cli).session, registry@))),
{
    let ghost out = cli.output@;
    assert(appended(out, seq![]) =~= out);
    say(cli, "user=".as_bytes(), Ghost(out), Ghost(Seq::<u8>::empty()));
    let name = plix_auth_user_name(&cli.session);
    let ghost t1 = seq![] + lit("user=");
    say(cli, name.as_slice(), Ghost(out), Ghost(t1));
    let ghost t2 = t1 + cstr(session_name(cli.session));
    say(cli, " path=".as_bytes(), Ghost(out), Ghost(t2));
    let ghost t3 = t2 + lit(" path=");
    say_path(cli, Ghost(out), Ghost(t3));
    let ghost t4 = t3 + path_text(cli.fs);
    say(cli, " drivers=".as_bytes(), Ghost(out), Ghost(t4));
    let ghost t5 = t4 + lit(" drivers=");
    let count = plix_driver_count(registry);
    if count == 0 {
        say(cli, "0\n".as_bytes(), Ghost(out), Ghost(t5));
        assert(t5 + lit("0\n") =~= status_text(cli.fs, cli.session, registry@));
    } else {
        let mut k: usize = 0;
        assert(t5 + repeat(lit("+"), 0) =~= t5);
        while k < count
            invariant
                cli.wf(),
                cli.fs == old(cli).fs,
                cli.session == old(cli).session,
                out == old(cli).output@,
                out.len() < OUT_CAP,
                k <= count,
                cli.output@ == appended(out, t5 + repeat(lit("+"), k as nat)),
            decreases count - k,
        {
            say(cli, "+".as_bytes(), Ghost(out), Ghost(t5 + repeat(lit("+"), k as nat)));
            assert(t5 + repeat(lit("+"), k as nat) + lit("+") =~= t5 + repeat(lit("+"), (k + 1) as nat));
            k = k + 1;
        }
        say(cli, "\n".as_bytes(), Ghost(out), Ghost(t5 + repeat(lit("+"), count as nat)));
        assert(t5 + repeat(lit("+"), count as nat) + lit("\n") =~= status_text(cli.fs, cli.session, registry@));
    }
    0
}

/// `show`: the names in the current directory, one per line.
fn cmd_show(cli: &mut PlixCli) -> (rc: i32)
    requires
        old(cli).wf(),
    ensures
        final(cli).wf(),
        applied(*old(cli), *final(cli), rc, answer(old(cli).fs, old(cli).session, 0i32, show_text(old(cli).fs))),
{
    let ghost out = cli.output@;
    let mut names: Vec<Vec<u8>> = Vec::new();
    let mut i: usize = 0;
    while i < MAX_SHOW
        invariant
            i <= MAX_SHOW,
            names.len() == i,
        decreases MAX_SHOW - i,
    {
        names.push(Vec::new());
        i = i + 1;
    }
    let count = plix_everyfile_show(&cli.fs, &mut names, MAX_SHOW);
    let stop = if count < MAX_SHOW { count } else { MAX_SHOW };
    let mut k: usize = 0;
    assert(appended(out, show_lines(cli.fs, 0)) =~= out);
    while k < stop
        invariant
            cli.wf(),
            cli.fs == old(cli).fs,
            cli.session == old(cli).session,
            out == old(cli).output@,
            out.len() < OUT_CAP,
            names.len() == MAX_SHOW,
            stop <= MAX_SHOW,
            stop <= count,
            count == cli.fs.nodes[cli.fs.current as int].children.len(),
            forall|j: int| 0 <= j < stop ==> #[trigger] names[j]@ == cli.fs.nodes[cli.fs.nodes[cli.fs.current as int].children[j] as int].name@,
            k <= stop,
            cli.output@ == appended(out, show_lines(cli.fs, k as int)),
        decreases stop - k,
    {
        let ghost done = show_lines(cli.fs, k as int);
        say(cli, names[k].as_slice(), Ghost(out), Ghost(done));
        say(cli, "\n".as_bytes(), Ghost(out), Ghost(done + cstr(names[k as int]@)));
        assert(show_lines(cli.fs, k + 1) == done + cstr(names[k as int]@) + lit("\n"));
        k = k + 1;
    }
    0
}

/// `drivers`: name, bus and class of each registered driver.
fn cmd_drivers(cli: &mut PlixCli, registry: &PlixDriverRegistry) -> (rc: i32)
    requires
        old(cli).wf(),
        registry.wf(),
    ensures
        final(cli).wf(),
        applied(*old(cli), *final(cli), rc, answer(old(cli).fs, old(cli).session, 0i32, drivers_text(registry@))),
{
    let ghost out = cli.output@;
    let count = plix_driver_count(registry);
    if count == 0 {
        assert(appended(out, seq![]) =~= out);
        say(cli, "keine linux treiber geladen\n".as_bytes(), Ghost(out), Ghost(Seq::<u8>::empty()));
        assert(seq![] + lit("keine linux treiber geladen\n") =~= drivers_text(registry@));
        return 0;
    }
    let mut i: usize = 0;
    assert(appended(out, driver_lines(registry@, 0)) =~= out);
    while i < count
        invariant
            cli.wf(),
            registry.wf(),
            cli.fs == old(cli).fs,
            cli.session == old(cli).session,
            out == old(cli).output@,
            out.len() < OUT_CAP,
            count == registry@.len(),
            i <= count,
            cli.output@ == appended(out, driver_lines(registry@, i as int)),
        decreases count - i,
    {
        let ghost done = driver_lines(registry@, i as int);
        match plix_driver_get(registry, i) {
            Some(driver) => {
                let ghost d = registry@[i as int];
                assert(registry.drivers[i as int].name is Some);
                let name = match &driver.name {
                    Some(n) => n.as_slice(),
                    None => "".as_bytes(),
                };
                assert(d.name == Some(name@));
                say(cli, name, Ghost(out), Ghost(done));
                let ghost t1 = done + cstr(name@);
                say(cli, " ".as_bytes(), Ghost(out), Ghost(t1));
                let ghost t2 = t1 + lit(" ");
                say(cli, plix_driver_bus_name(driver.bus), Ghost(out), Ghost(t2));
                let ghost t3 = t2 + cstr(bus_name(d.bus));
                say(cli, " ".as_bytes(), Ghost(out), Ghost(t3));
                let ghost t4 = t3 + lit(" ");
                say(cli, plix_driver_class_name(driver.device_class), Ghost(out), Ghost(t4));
                let ghost t5 = t4 + cstr(class_name(d.device_class));
                say(cli, "\n".as_bytes(), Ghost(out), Ghost(t5));
                assert(t5 + lit("\n") =~= driver_lines(registry@, i + 1));
            },
            None => {},
        }
        i = i + 1;
    }
    0
}

/// Facts about the line that the commands read: `l` is the string it holds, of
/// length `n`, and every part of `l` is free of zero bytes.
pub open spec fn line_facts(line: Seq<u8>, n: usize, l: Seq<u8>) -> bool {
    &&& n == c_len(line)
    &&& n <= line.len()
    &&& l == cstr(line)
    &&& l == line.take(n as int)
    &&& l.len() == n
}

/// `login <user> <password>`.
fn cmd_login(cli: &mut PlixCli, line: &[u8], n: usize, argument: usize, Ghost(l): Ghost<Seq<u8>>) -> (rc: i32)
    requires
        old(cli).wf(),
        line_facts(line@, n, l),
        argument <= n,
    ensures
        final(cli).wf(),
        applied(*old(cli), *final(cli), rc, login_effect(old(cli).fs, old(cli).session, l, argument as int)),
{
    reveal(login_effect);
    let ghost out = cli.output@;
    let ghost empty = Seq::<u8>::empty();
    assert(appended(out, empty) =~= out);
    let name = argument;
    let name_len = token_len(line, n, name);
    let password = skip_spaces(line, n, name + name_len);
    assert(line@.subrange(name as int, name + name_len) =~= l.subrange(name as int, name + name_len));
    assert(line@.subrange(password as int, n as int) =~= l.subrange(password as int, l.len() as int));
    if name_len == 0 || password == n {
        say(cli, "login braucht user und passwort\n".as_bytes(), Ghost(out), Ghost(empty));
        assert(empty + lit("login braucht user und passwort\n") =~= lit("login braucht user und passwort\n"));
        return -1;
    }
    let user_name = copy_token(line, name, name_len);
    let pw = vstd::slice::slice_subrange(line, password, n);
    if plix_auth_login(&mut cli.session, user_name.as_slice(), pw) != 0
        || plix_everyfile_enter_user(&mut cli.fs, user_name.as_slice()) != 0 {
        say(cli, "login fehlgeschlagen\n".as_bytes(), Ghost(out), Ghost(empty));
        assert(empty + lit("login fehlgeschlagen\n") =~= lit("login fehlgeschlagen\n"));
        return -1;
    }
    say(cli, "angemeldet als ".as_bytes(), Ghost(out), Ghost(empty));
    let ghost t1 = empty + lit("angemeldet als ");
    let who = plix_auth_user_name(&cli.session);
    say(cli, who.as_slice(), Ghost(out), Ghost(t1));
    let ghost t2 = t1 + cstr(who@);
    say(cli, "\n".as_bytes(), Ghost(out), Ghost(t2));
    assert(t2 + lit("\n") =~= lit("angemeldet als ") + cstr(who@) + lit("\n"));
    0
}

/// `goto <path>`.
fn cmd_goto(cli: &mut PlixCli, line: &[u8], n: usize, argument: usize, Ghost(l): Ghost<Seq<u8>>) -> (rc: i32)
    requires
        old(cli).wf(),
        line_facts(line@, n, l),
        argument <= n,
    ensures
        final(cli).wf(),
        applied(*old(cli), *final(cli), rc, goto_effect(old(cli).fs, old(cli).session, l.subrange(argument as int, l.len() as int))),
{
    reveal(goto_effect);
    let ghost out = cli.output@;
    let ghost empty = Seq::<u8>::empty();
    assert(appended(out, empty) =~= out);
    if argument == n {
        say(cli, "goto braucht ein ziel\n".as_bytes(), Ghost(out), Ghost(empty));
        assert(empty + lit("goto braucht ein ziel\n") =~= lit("goto braucht ein ziel\n"));
        return -1;
    }
    let path = vstd::slice::slice_subrange(line, argument, n);
    proof {
        assert(path@ =~= l.subrange(argument as int, n as int));
        lemma_cstr_part(line@, argument as int, n as int);
    }
    if plix_everyfile_goto(&mut cli.fs, path) != 0 {
        say(cli, "ziel nicht gefunden\n".as_bytes(), Ghost(out), Ghost(empty));
        assert(empty + lit("ziel nicht gefunden\n") =~= lit("ziel nicht gefunden\n"));
        return -1;
    }
    say(cli, "jetzt in ".as_bytes(), Ghost(out), Ghost(empty));
    let ghost t1 = empty + lit("jetzt in ");
    say_path(cli, Ghost(out), Ghost(t1));
    let ghost t2 = t1 + path_text(cli.fs);
    say(cli, "\n".as_bytes(), Ghost(out), Ghost(t2));
    assert(t2 + lit("\n") =~= lit("jetzt in ") + path_text(cli.fs) + lit("\n"));
    0
}

/// `pudo <password> <command>`: allowed for an authenticated power user who
/// gives their password.
fn cmd_pudo(cli: &mut PlixCli, line: &[u8], n: usize, argument: usize, Ghost(l): Ghost<Seq<u8>>) -> (rc: i32)
    requires
        old(cli).wf(),
        line_facts(line@, n, l),
        argument <= n,
    ensures
        final(cli).wf(),
        applied(*old(cli), *final(cli), rc, pudo_effect(old(cli).fs, old(cli).session, l, argument as int)),
{
    reveal(pudo_effect);
    let ghost out = cli.output@;
    let ghost empty = Seq::<u8>::empty();
    assert(appended(out, empty) =~= out);
    let password = argument;
    let password_len = token_len(line, n, password);
    let power_command = skip_spaces(line, n, password + password_len);
    let pudo_password = copy_token(line, password, password_len);
    assert(line@.subrange(password as int, password + password_len) =~= l.subrange(password as int, password + password_len));
    if plix_auth_is_power_user(&cli.session) == 0 || password_len == 0
        || plix_auth_check_password(&cli.session, pudo_password.as_slice()) == 0 {
        say(cli, "pudo verweigert\n".as_bytes(), Ghost(out), Ghost(empty));
        assert(empty + lit("pudo verweigert\n") =~= lit("pudo verweigert\n"));
        return -1;
    }
    say(cli, "pudo erlaubt: ".as_bytes(), Ghost(out), Ghost(empty));
    let ghost t1 = empty + lit("pudo erlaubt: ");
    let ghost command = l.subrange(power_command as int, l.len() as int);
    let ghost shown: Seq<u8>;
    if power_command == n {
        say(cli, "<leer>".as_bytes(), Ghost(out), Ghost(t1));
        proof {
            shown = lit("<leer>");
        }
    } else {
        let rest = vstd::slice::slice_subrange(line, power_command, n);
        proof {
            assert(rest@ =~= command);
            lemma_cstr_part(line@, power_command as int, n as int);
            shown = command;
        }
        say(cli, rest, Ghost(out), Ghost(t1));
    }
    say(cli, "\n".as_bytes(), Ghost(out), Ghost(t1 + shown));
    assert(t1 + shown + lit("\n") =~= lit("pudo erlaubt: ") + shown + lit("\n"));
    0
}

/// Runs one command line and appends its answer to the transcript. Returns 0
/// on success and -1 on a refused or unknown command; what it returns, appends
/// and changes is `cli_effect`.
pub fn plix_cli_execute(cli: &mut PlixCli, registry: &PlixDriverRegistry, line: &[u8]) -> (rc: i32)
    requires
        old(cli).wf(),
        registry.wf(),
    ensures
        final(cli).wf(),
        applied(*old(cli), *final(cli), rc, cli_effect(old(cli).fs, old(cli).session, registry@, line@)),
{
    let ghost out = cli.output@;
    let ghost empty = Seq::<u8>::empty();
    let n = c_strlen(line);
    proof {
        lemma_c_len(line@);
        assert(appended(out, empty) =~= out);
    }
    let ghost l = cstr(line@);
    let command = skip_spaces(line, n, 0);
    let command_len = token_len(line, n, command);
    let argument = skip_spaces(line, n, command + command_len);
    assert(line@.subrange(command as int, command + command_len) =~= l.subrange(command as int, command + command_len));
    if token_is(line, command, command_len, "help".as_bytes()) || token_is(line, command, command_len, "?".as_bytes()) {
        say(cli, "help/?  pwd/pw  who  goto/gt <path>  show/sw  drivers/drv  login <user> <pass>  pudo <pass> <command>  status/st\n".as_bytes(), Ghost(out), Ghost(empty));
        assert(empty + help_text() =~= help_text());
        return 0;
    }
    if token_is(line, command, command_len, "pwd".as_bytes()) || token_is(line, command, command_len, "pw".as_bytes()) {
        say_path(cli, Ghost(out), Ghost(empty));
        say(cli, "\n".as_bytes(), Ghost(out), Ghost(empty + path_text(cli.fs)));
        assert(empty + path_text(cli.fs) + lit("\n") =~= path_text(cli.fs) + lit("\n"));
        return 0;
    }
    if token_is(line, command, command_len, "status".as_bytes()) || token_is(line, command, command_len, "st".as_bytes()) {
        return cmd_status(cli, registry);
    }
    if token_is(line, command, command_len, "login".as_bytes()) {
        return cmd_login(cli, line, n, argument, Ghost(l));
    }
    if token_is(line, command, command_len, "who".as_bytes()) {
        let who = plix_auth_user_name(&cli.session);
        say(cli, who.as_slice(), Ghost(out), Ghost(empty));
        say(cli, "\n".as_bytes(), Ghost(out), Ghost(empty + cstr(who@)));
        assert(empty + cstr(who@) + lit("\n") =~= cstr(session_name(cli.session)) + lit("\n"));
        return 0;
    }
    if token_is(line, command, command_len, "goto".as_bytes()) || token_is(line, command, command_len, "gt".as_bytes()) {
        return cmd_goto(cli, line, n, argument, Ghost(l));
    }
    if token_is(line, command, command_len, "show".as_bytes()) || token_is(line, command, command_len, "sw".as_bytes()) {
        return cmd_show(cli);
    }
    if token_is(line, command, command_len, "drivers".as_bytes()) || token_is(line, command, command_len, "drv".as_bytes()) {
        return cmd_drivers(cli, registry);
    }
    if token_is(line, command, command_len, "pudo".as_bytes()) {
        return cmd_pudo(cli, line, n, argument, Ghost(l));
    }
    if command == n {
        return 0;
    }
    say(cli, "unbekannter befehl; nutze help\n".as_bytes(), Ghost(out), Ghost(empty));
    assert(empty + lit("unbekannter befehl; nutze help\n") =~= lit("unbekannter befehl; nutze help\n"));
    -1
}

/// The banner that initialization writes.
pub open spec fn ready_text(fs: PlixEveryfile) -> Seq<u8> {
    lit("plix cli ready at ") + path_text(fs) + lit("\nuse help for commands\n")
}

/// The names `root` and `guest` differ.
proof fn lemma_root_is_not_guest()
    ensures
        cstr("root".spec_bytes()) != cstr("guest".spec_bytes()),
{
    reveal_strlit("root");
    reveal_strlit("guest");
    vstd::string::is_ascii_spec_bytes("root");
    vstd::string::is_ascii_spec_bytes("guest");
    let r = "root".spec_bytes();
    let g = "guest".spec_bytes();
    assert(r =~= seq![114u8, 111u8, 111u8, 116u8]);
    assert(g =~= seq![103u8, 117u8, 101u8, 115u8, 116u8]);
    lemma_cstr_of_plain(r);
    lemma_cstr_of_plain(g);
}

/// Starts the command line: builds the tree, starts the guest session, enters
/// the guest's home and writes the banner with the current path.
pub fn plix_cli_init(cli: &mut PlixCli)
    ensures
        final(cli).wf(),
        is_initial_tree_at(final(cli).fs, GUEST_HOME_NODE),
        final(cli).session == (PlixSession { user: Some(GUEST_USER), authenticated: 1 }),
        final(cli).output@ == appended(seq![], ready_text(final(cli).fs)),
{
    plix_everyfile_init(&mut cli.fs);
    plix_auth_init(&mut cli.session);
    let name = plix_auth_user_name(&cli.session);
    proof {
        lemma_root_is_not_guest();
        let fs = cli.fs;
        assert(find_child_from(fs, 1, cstr(name@), 1) == Some(7usize));
        assert(find_child_from(fs, 1, cstr(name@), 0) == Some(7usize));
    }
    let _ = plix_everyfile_enter_user(&mut cli.fs, name.as_slice());
    cli.output = Vec::new();
    let ghost out = cli.output@;
    let ghost empty = Seq::<u8>::empty();
    assert(appended(out, empty) =~= out);
    say(cli, "plix cli ready at ".as_bytes(), Ghost(out), Ghost(empty));
    let ghost t1 = empty + lit("plix cli ready at ");
    say_path(cli, Ghost(out), Ghost(t1));
    let ghost t2 = t1 + path_text(cli.fs);
    say(cli, "\nuse help for commands\n".as_bytes(), Ghost(out), Ghost(t2));
    assert(t2 + lit("\nuse help for commands\n") =~= ready_text(cli.fs));
    assert(out =~= seq![]);
}

/// The transcript written so far.
pub fn plix_cli_output(cli: &PlixCli) -> (output: &[u8])
    ensures
        output@ == cli.output@,
{
    cli.output.as_slice()
}

/// Length and first byte of each command word.
proof fn lemma_command_words()
    ensures
        lit("help").len() == 4 && lit("help")[0] == 104u8,
        lit("?").len() == 1 && lit("?")[0] == 63u8,
        lit("pwd").len() == 3 && lit("pwd")[0] == 112u8,
        lit("pw").len() == 2 && lit("pw")[0] == 112u8,
        lit("status").len() == 6 && lit("status")[0] == 115u8,
        lit("st").len() == 2 && lit("st")[0] == 115u8,
        lit("login").len() == 5 && lit("login")[0] == 108u8,
        lit("who").len() == 3 && lit("who")[0] == 119u8,
        lit("goto").len() == 4 && lit("goto")[0] == 103u8,
        lit("gt").len() == 2 && lit("gt")[0] == 103u8,
        lit("show").len() == 4 && lit("show")[0] == 115u8,
        lit("sw").len() == 2 && lit("sw")[0] == 115u8,
        lit("drivers").len() == 7 && lit("drivers")[0] == 100u8,
        lit("drv").len() == 3 && lit("drv")[0] == 100u8,
        lit("pudo").len() == 4 && lit("pudo")[0] == 112u8,
{
    assert(lit("help") == seq![104u8, 101u8, 108u8, 112u8]) by {
        reveal_strlit("help");
        vstd::string::is_ascii_spec_bytes("help");
        assert("help".spec_bytes() =~= seq![104u8, 101u8, 108u8, 112u8]);
        lemma_cstr_of_plain("help".spec_bytes());
    }
    assert(lit("?") == seq![63u8]) by {
        reveal_strlit("?");
        vstd::string::is_ascii_spec_bytes("?");
        assert("?".spec_bytes() =~= seq![63u8]);
        lemma_cstr_of_plain("?".spec_bytes());
    }
    assert(lit("pwd") == seq![112u8, 119u8, 100u8]) by {
        reveal_strlit("pwd");
        vstd::string::is_ascii_spec_bytes("pwd");
        assert("pwd".spec_bytes() =~= seq![112u8, 119u8, 100u8]);
        lemma_cstr_of_plain("pwd".spec_bytes());
    }
    assert(lit("pw") == seq![112u8, 119u8]) by {
        reveal_strlit("pw");
        vstd::string::is_ascii_spec_bytes("pw");
        assert("pw".spec_bytes() =~= seq![112u8, 119u8]);
        lemma_cstr_of_plain("pw".spec_bytes());
    }
    assert(lit("status") == seq![115u8, 116u8, 97u8, 116u8, 117u8, 115u8]) by {
        reveal_strlit("status");
        vstd::string::is_ascii_spec_bytes("status");
        assert("status".spec_bytes() =~= seq![115u8, 116u8, 97u8, 116u8, 117u8, 115u8]);
        lemma_cstr_of_plain("status".spec_bytes());
    }
    assert(lit("st") == seq![115u8, 116u8]) by {
        reveal_strlit("st");
        vstd::string::is_ascii_spec_bytes("st");
        assert("st".spec_bytes() =~= seq![115u8, 116u8]);
        lemma_cstr_of_plain("st".spec_bytes());
    }
    assert(lit("login") == seq![108u8, 111u8, 103u8, 105u8, 110u8]) by {
        reveal_strlit("login");
        vstd::string::is_ascii_spec_bytes("login");
        assert("login".spec_bytes() =~= seq![108u8, 111u8, 103u8, 105u8, 110u8]);
        lemma_cstr_of_plain("login".spec_bytes());
    }
    assert(lit("who") == seq![119u8, 104u8, 111u8]) by {
        reveal_strlit("who");
        vstd::string::is_ascii_spec_bytes("who");
        assert("who".spec_bytes() =~= seq![119u8, 104u8, 111u8]);
        lemma_cstr_of_plain("who".spec_bytes());
    }
    assert(lit("goto") == seq![103u8, 111u8, 116u8, 111u8]) by {
        reveal_strlit("goto");
        vstd::string::is_ascii_spec_bytes("goto");
        assert("goto".spec_bytes() =~= seq![103u8, 111u8, 116u8, 111u8]);
        lemma_cstr_of_plain("goto".spec_bytes());
    }
    assert(lit("gt") == seq![103u8, 116u8]) by {
        reveal_strlit("gt");
        vstd::string::is_ascii_spec_bytes("gt");
        assert("gt".spec_bytes() =~= seq![103u8, 116u8]);
        lemma_cstr_of_plain("gt".spec_bytes());
    }
    assert(lit("show") == seq![115u8, 104u8, 111u8, 119u8]) by {
        reveal_strlit("show");
        vstd::string::is_ascii_spec_bytes("show");
        assert("show".spec_bytes() =~= seq![115u8, 104u8, 111u8, 119u8]);
        lemma_cstr_of_plain("show".spec_bytes());
    }
    assert(lit("sw") == seq![115u8, 119u8]) by {
        reveal_strlit("sw");
        vstd::string::is_ascii_spec_bytes("sw");
        assert("sw".spec_bytes() =~= seq![115u8, 119u8]);
        lemma_cstr_of_plain("sw".spec_bytes());
    }
    assert(lit("drivers") == seq![100u8, 114u8, 105u8, 118u8, 101u8, 114u8, 115u8]) by {
        reveal_strlit("drivers");
        vstd::string::is_ascii_spec_bytes("drivers");
        assert("drivers".spec_bytes() =~= seq![100u8, 114u8, 105u8, 118u8, 101u8, 114u8, 115u8]);
        lemma_cstr_of_plain("drivers".spec_bytes());
    }
    assert(lit("drv") == seq![100u8, 114u8, 118u8]) by {
        reveal_strlit("drv");
        vstd::string::is_ascii_spec_bytes("drv");
        assert("drv".spec_bytes() =~= seq![100u8, 114u8, 118u8]);
        lemma_cstr_of_plain("drv".spec_bytes());
    }
    assert(lit("pudo") == seq![112u8, 117u8, 100u8, 111u8]) by {
        reveal_strlit("pudo");
        vstd::string::is_ascii_spec_bytes("pudo");
        assert("pudo".spec_bytes() =~= seq![112u8, 117u8, 100u8, 111u8]);
        lemma_cstr_of_plain("pudo".spec_bytes());
    }
}

proof fn lemma_token_end_plain(s: Seq<u8>, i: int)
    requires
        0 <= i <= s.len(),
        forall|j: int| i <= j < s.len() ==> !is_blank(s[j]),
    ensures
        token_end(s, i) == s.len(),
    decreases s.len() - i,
{
    if i < s.len() {
        lemma_token_end_plain(s, i + 1);
    }
}

/// A line that is exactly one command word runs that command.
proof fn lemma_single_word(line: Seq<u8>)
    requires
        line.len() > 0,
        forall|j: int| 0 <= j < line.len() ==> line[j] != 0 && !is_blank(line[j]),
    ensures
        ({
            let l = cstr(line);
            let c = skip_blanks(l, 0);
            &&& c == 0
            &&& l.subrange(c, token_end(l, c)) == line
            &&& skip_blanks(l, token_end(l, c)) == line.len()
            &&& l.len() == line.len()
            &&& l == line
        }),
{
    lemma_cstr_of_plain(line);
    lemma_token_end_plain(line, 0);
    assert(line.subrange(0, line.len() as int) =~= line);
}

/// `status` is none of the command words checked before it, and it is a plain word.
proof fn lemma_word_status()
    ensures
        "status".spec_bytes() == seq![115u8, 116u8, 97u8, 116u8, 117u8, 115u8],
        lit("status") == "status".spec_bytes(),
        lit("status") != lit("help"),
        lit("status") != lit("?"),
        lit("status") != lit("pwd"),
        lit("status") != lit("pw"),
{
    lemma_command_words();
    assert("status".spec_bytes() =~= seq![115u8, 116u8, 97u8, 116u8, 117u8, 115u8]) by {
        reveal_strlit("status");
        vstd::string::is_ascii_spec_bytes("status");
    }
    lemma_cstr_of_plain("status".spec_bytes());
    assert(lit("status") != lit("help")) by { if lit("status").len() == lit("help").len() { assert(lit("status")[0] != lit("help")[0]); } }
    assert(lit("status") != lit("?")) by { if lit("status").len() == lit("?").len() { assert(lit("status")[0] != lit("?")[0]); } }
    assert(lit("status") != lit("pwd")) by { if lit("status").len() == lit("pwd").len() { assert(lit("status")[0] != lit("pwd")[0]); } }
    assert(lit("status") != lit("pw")) by { if lit("status").len() == lit("pw").len() { assert(lit("status")[0] != lit("pw")[0]); } }
}

/// Running `status` appends the status line and changes nothing.
pub proof fn lemma_run_status(fs: PlixEveryfile, session: PlixSession, drivers: Seq<PlixDriverView>)
    ensures
        cli_effect(fs, session, drivers, "status".spec_bytes()) == answer(fs, session, 0i32, status_text(fs, session, drivers)),
{
    lemma_word_status();
    let line = "status".spec_bytes();
    lemma_single_word(line);
}

/// `drivers` is none of the command words checked before it, and it is a plain word.
proof fn lemma_word_drivers()
    ensures
        "drivers".spec_bytes() == seq![100u8, 114u8, 105u8, 118u8, 101u8, 114u8, 115u8],
        lit("drivers") == "drivers".spec_bytes(),
        lit("drivers") != lit("help"),
        lit("drivers") != lit("?"),
        lit("drivers") != lit("pwd"),
        lit("drivers") != lit("pw"),
        lit("drivers") != lit("status"),
        lit("drivers") != lit("st"),
        lit("drivers") != lit("login"),
        lit("drivers") != lit("who"),
        lit("drivers") != lit("goto"),
        lit("drivers") != lit("gt"),
        lit("drivers") != lit("show"),
        lit("drivers") != lit("sw"),
{
    lemma_command_words();
    assert("drivers".spec_bytes() =~= seq![100u8, 114u8, 105u8, 118u8, 101u8, 114u8, 115u8]) by {
        reveal_strlit("drivers");
        vstd::string::is_ascii_spec_bytes("drivers");
    }
    lemma_cstr_of_plain("drivers".spec_bytes());
    assert(lit("drivers") != lit("help")) by { if lit("drivers").len() == lit("help").len() { assert(lit("drivers")[0] != lit("help")[0]); } }
    assert(lit("drivers") != lit("?")) by { if lit("drivers").len() == lit("?").len() { assert(lit("drivers")[0] != lit("?")[0]); } }
    assert(lit("drivers") != lit("pwd")) by { if lit("drivers").len() == lit("pwd").len() { assert(lit("drivers")[0] != lit("pwd")[0]); } }
    assert(lit("drivers") != lit("pw")) by { if lit("drivers").len() == lit("pw").len() { assert(lit("drivers")[0] != lit("pw")[0]); } }
    assert(lit("drivers") != lit("status")) by { if lit("drivers").len() == lit("status").len() { assert(lit("drivers")[0] != lit("status")[0]); } }
    assert(lit("drivers") != lit("st")) by { if lit("drivers").len() == lit("st").len() { assert(lit("drivers")[0] != lit("st")[0]); } }
    assert(lit("drivers") != lit("login")) by { if lit("drivers").len() == lit("login").len() { assert(lit("drivers")[0] != lit("login")[0]); } }
    assert(lit("drivers") != lit("who")) by { if lit("drivers").len() == lit("who").len() { assert(lit("drivers")[0] != lit("who")[0]); } }
    assert(lit("drivers") != lit("goto")) by { if lit("drivers").len() == lit("goto").len() { assert(lit("drivers")[0] != lit("goto")[0]); } }
    assert(lit("drivers") != lit("gt")) by { if lit("drivers").len() == lit("gt").len() { assert(lit("drivers")[0] != lit("gt")[0]); } }
    assert(lit("drivers") != lit("show")) by { if lit("drivers").len() == lit("show").len() { assert(lit("drivers")[0] != lit("show")[0]); } }
    assert(lit("drivers") != lit("sw")) by { if lit("drivers").len() == lit("sw").len() { assert(lit("drivers")[0] != lit("sw")[0]); } }
}

/// Running `drivers` appends the driver list and changes nothing.
pub proof fn lemma_run_drivers(fs: PlixEveryfile, session: PlixSession, drivers: Seq<PlixDriverView>)
    ensures
        cli_effect(fs, session, drivers, "drivers".spec_bytes()) == answer(fs, session, 0i32, drivers_text(drivers)),
{
    lemma_word_drivers();
    let line = "drivers".spec_bytes();
    lemma_single_word(line);
}

/// `show` is none of the command words checked before it, and it is a plain word.
proof fn lemma_word_show()
    ensures
        "show".spec_bytes() == seq![115u8, 104u8, 111u8, 119u8],
        lit("show") == "show".spec_bytes(),
        lit("show") != lit("help"),
        lit("show") != lit("?"),
        lit("show") != lit("pwd"),
        lit("show") != lit("pw"),
        lit("show") != lit("status"),
        lit("show") != lit("st"),
        lit("show") != lit("login"),
        lit("show") != lit("who"),
        lit("show") != lit("goto"),
        lit("show") != lit("gt"),
{
    lemma_command_words();
    assert("show".spec_bytes() =~= seq![115u8, 104u8, 111u8, 119u8]) by {
        reveal_strlit("show");
        vstd::string::is_ascii_spec_bytes("show");
    }
    lemma_cstr_of_plain("show".spec_bytes());
    assert(lit("show") != lit("help")) by { if lit("show").len() == lit("help").len() { assert(lit("show")[0] != lit("help")[0]); } }
    assert(lit("show") != lit("?")) by { if lit("show").len() == lit("?").len() { assert(lit("show")[0] != lit("?")[0]); } }
    assert(lit("show") != lit("pwd")) by { if lit("show").len() == lit("pwd").len() { assert(lit("show")[0] != lit("pwd")[0]); } }
    assert(lit("show") != lit("pw")) by { if lit("show").len() == lit("pw").len() { assert(lit("show")[0] != lit("pw")[0]); } }
    assert(lit("show") != lit("status")) by { if lit("show").len() == lit("status").len() { assert(lit("show")[0] != lit("status")[0]); } }
    assert(lit("show") != lit("st")) by { if lit("show").len() == lit("st").len() { assert(lit("show")[0] != lit("st")[0]); } }
    assert(lit("show") != lit("login")) by { if lit("show").len() == lit("login").len() { assert(lit("show")[0] != lit("login")[0]); } }
    assert(lit("show") != lit("who")) by { if lit("show").len() == lit("who").len() { assert(lit("show")[0] != lit("who")[0]); } }
    assert(lit("show") != lit("goto")) by { if lit("show").len() == lit("goto").len() { assert(lit("show")[0] != lit("goto")[0]); } }
    assert(lit("show") != lit("gt")) by { if lit("show").len() == lit("gt").len() { assert(lit("show")[0] != lit("gt")[0]); } }
}

/// Running `show` appends the current directory's entries and changes nothing.
pub proof fn lemma_run_show(fs: PlixEveryfile, session: PlixSession, drivers: Seq<PlixDriverView>)
    ensures
        cli_effect(fs, session, drivers, "show".spec_bytes()) == answer(fs, session, 0i32, show_text(fs)),
{
    lemma_word_show();
    let line = "show".spec_bytes();
    lemma_single_word(line);
}

/// The transcript of a boot: the banner, then the answers to `status`,
/// `drivers` and `show`.
pub open spec fn boot_text(fs: PlixEveryfile, session: PlixSession, drivers: Seq<PlixDriverView>) -> Seq<u8> {
    ready_text(fs) + status_text(fs, session, drivers) + drivers_text(drivers) + show_text(fs)
}

/// Starts the command line and runs `status`, `drivers` and `show`.
pub fn plix_cli_boot(cli: &mut PlixCli, registry: &PlixDriverRegistry)
    requires
        registry.wf(),
    ensures
        final(cli).wf(),
        is_initial_tree_at(final(cli).fs, GUEST_HOME_NODE),
        final(cli).session == (PlixSession { user: Some(GUEST_USER), authenticated: 1 }),
        final(cli).output@ == appended(seq![], boot_text(final(cli).fs, final(cli).session, registry@)),
{
    plix_cli_init(cli);
    let ghost fs = cli.fs;
    let ghost session = cli.session;
    proof {
        lemma_run_status(fs, session, registry@);
        lemma_run_drivers(fs, session, registry@);
        lemma_run_show(fs, session, registry@);
    }
    let _ = plix_cli_execute(cli, registry, "status".as_bytes());
    let _ = plix_cli_execute(cli, registry, "drivers".as_bytes());
    let _ = plix_cli_execute(cli, registry, "show".as_bytes());
    proof {
        let empty = Seq::<u8>::empty();
        let r = ready_text(fs);
        let st = status_text(fs, session, registry@);
        let dr = drivers_text(registry@);
        lemma_appended_twice(empty, r, st);
        lemma_appended_twice(empty, r + st, dr);
        lemma_appended_twice(empty, r + st + dr, show_text(fs));
    }
}

/// The transcript only grows: what it held stays its prefix, and it never
/// holds more than `OUT_CAP - 1` bytes.
pub proof fn law_transcript_grows(out: Seq<u8>, text: Seq<u8>)
    requires
        out.len() < OUT_CAP,
    ensures
        appended(out, text).len() < OUT_CAP,
        appended(out, text).len() >= out.len(),
        appended(out, text).take(out.len() as int) == out,
        out.len() + text.len() < OUT_CAP ==> appended(out, text) == out + text,
{
    assert(appended(out, text).take(out.len() as int) =~= out);
}

/// No command changes the tree's nodes, its root or its users directory; only
/// `goto` and `login` move around in it, and only `login` changes the session.
pub proof fn law_commands_keep_the_tree(
    fs: PlixEveryfile,
    session: PlixSession,
    drivers: Seq<PlixDriverView>,
    line: Seq<u8>,
)
    ensures
        ({
            let e = cli_effect(fs, session, drivers, line);
            &&& e.fs.nodes == fs.nodes
            &&& e.fs.root == fs.root
            &&& e.fs.users == fs.users
            &&& e.fs.active_user != fs.active_user ==> e.session.user is Some
        }),
{
    reveal(login_effect);
    reveal(goto_effect);
    reveal(pudo_effect);
}

proof fn lemma_driver_lines_prefix(d: Seq<PlixDriverView>, x: PlixDriverView, k: int)
    requires
        0 <= k <= d.len(),
    ensures
        driver_lines(d.push(x), k) == driver_lines(d, k),
    decreases k,
{
    if k > 0 {
        lemma_driver_lines_prefix(d, x, k - 1);
        assert(d.push(x)[k - 1] == d[k - 1]);
    }
}

/// Registering one more driver adds exactly that driver's line, its name, bus
/// and class, after the lines of the drivers registered before it: the answer
/// to `drivers` lists every registered driver, in order.
pub proof fn law_drivers_lists_every_driver(d: Seq<PlixDriverView>, x: PlixDriverView)
    ensures
        drivers_text(d.push(x)) == (if d.len() == 0 {
            Seq::<u8>::empty()
        } else {
            drivers_text(d)
        }) + cstr(
            match x.name {
                Some(n) => n,
                None => seq![],
            },
        ) + lit(" ") + cstr(bus_name(x.bus)) + lit(" ") + cstr(class_name(x.device_class)) + lit("\n"),
{
    lemma_driver_lines_prefix(d, x, d.len() as int);
    assert(d.push(x)[d.len() as int] == x);
    if d.len() == 0 {
        assert(driver_lines(d.push(x), 0) =~= Seq::<u8>::empty());
    }
}

/// The two trees agree on every name, and `after`'s current directory holds the
/// children of `before`'s and then `c`.
pub open spec fn one_more_child(before: PlixEveryfile, after: PlixEveryfile, c: usize) -> bool {
    &&& before.current == after.current
    &&& before.current < before.nodes.len()
    &&& before.nodes.len() == after.nodes.len()
    &&& c < after.nodes.len()
    &&& forall|i: int| 0 <= i < before.nodes.len() ==> #[trigger] after.nodes[i].name@ == before.nodes[i].name@
    &&& forall|j: int|
        0 <= j < before.nodes[before.current as int].children.len()
            ==> #[trigger] before.nodes[before.current as int].children[j] < before.nodes.len()
    &&& after.nodes[after.current as int].children@ == before.nodes[before.current as int].children@.push(c)
}

proof fn lemma_show_lines_prefix(before: PlixEveryfile, after: PlixEveryfile, c: usize, k: int)
    requires
        one_more_child(before, after, c),
        0 <= k <= before.nodes[before.current as int].children.len(),
    ensures
        show_lines(after, k) == show_lines(before, k),
    decreases k,
{
    if k > 0 {
        lemma_show_lines_prefix(before, after, c, k - 1);
        let cur = before.current as int;
        assert(after.nodes[cur].children@[k - 1] == before.nodes[cur].children@[k - 1]);
        assert(before.nodes[cur].children[k - 1] < before.nodes.len());
    }
}

/// `show` in a directory without entries prints nothing; one more entry in the
/// current directory adds exactly its name and a line break after the names
/// listed before, until `MAX_SHOW` names are listed: the answer to `show` lists
/// the entries in order, one per line.
pub proof fn law_show_lists_every_entry(before: PlixEveryfile, after: PlixEveryfile, c: usize)
    requires
        one_more_child(before, after, c),
    ensures
        before.nodes[before.current as int].children.len() == 0 ==> show_text(before) == Seq::<u8>::empty(),
        show_text(after) == if before.nodes[before.current as int].children.len() < MAX_SHOW {
            show_text(before) + cstr(after.nodes[c as int].name@) + lit("\n")
        } else {
            show_text(before)
        },
{
    let cur = before.current as int;
    let n = before.nodes[cur].children.len() as int;
    lemma_show_lines_prefix(before, after, c, n);
    if n < MAX_SHOW {
        assert(after.nodes[cur].children@[n] == c);
        assert(show_lines(after, n + 1) == show_lines(before, n) + name_of(after, c as int) + lit("\n"));
    } else {
        lemma_show_lines_prefix(before, after, c, MAX_SHOW as int);
    }
    if n == 0 {
        assert(show_lines(before, 0) =~= Seq::<u8>::empty());
    }
}

/// `status` marks the loaded drivers with one `+` each: with no driver it reads
/// `0` before the final line break, and one more registered driver puts exactly
/// one more `+` there (the first in place of the `0`).
pub proof fn law_status_marks_every_driver(
    fs: PlixEveryfile,
    session: PlixSession,
    d: Seq<PlixDriverView>,
    x: PlixDriverView,
)
    ensures
        ({
            let before = status_text(fs, session, d);
            let tail = if d.len() == 0 { lit("0\n") } else { lit("\n") };
            status_text(fs, session, d.push(x)) == before.take(before.len() - tail.len()) + lit("+") + lit("\n")
        }),
{
    let head = lit("user=") + cstr(session_name(session)) + lit(" path=") + path_text(fs) + lit(" drivers=");
    let n = d.len();
    let plus = lit("+");
    let nl = lit("\n");
    assert(d.push(x).len() == n + 1);
    let after_tail = repeat(plus, n + 1) + nl;
    assert(status_text(fs, session, d.push(x)) == head + after_tail);
    assert(repeat(plus, n + 1) == repeat(plus, n) + plus);
    if n == 0 {
        let zero = lit("0\n");
        assert(status_text(fs, session, d) == head + zero);
        assert((head + zero).take(head.len() as int) =~= head);
        assert(repeat(plus, 0) =~= Seq::<u8>::empty());
        assert(after_tail =~= plus + nl);
        assert(head + after_tail =~= head + plus + nl);
    } else {
        let body = head + repeat(plus, n);
        assert(status_text(fs, session, d) == head + (repeat(plus, n) + nl));
        assert(head + (repeat(plus, n) + nl) =~= body + nl);
        assert((body + nl).take(body.len() as int) =~= body);
        assert(head + after_tail =~= body + plus + nl);
    }
}

/// `pudo` is granted only to an authenticated `root` session, and then only for
/// root's own password; every other request is refused with `pudo verweigert`
/// and changes nothing.
pub proof fn law_pudo_only_for_root(fs: PlixEveryfile, session: PlixSession, l: Seq<u8>, a: int)
    ensures
        ({
            let e = pudo_effect(fs, session, l, a);
            &&& e.fs == fs
            &&& e.session == session
            &&& e.rc == 0 || e.rc == -1
            &&& e.rc == -1 ==> e.text == lit("pudo verweigert\n")
            &&& e.rc == 0 ==> session.user == Some(ROOT_USER) && session.authenticated != 0
                && user_password_hash(ROOT_USER as int) == spec_hash_password(
                    user_name(ROOT_USER as int),
                    clipped(l.subrange(a, token_end(l, a))),
                    user_salt(ROOT_USER as int),
                )
        }),
{
    reveal(pudo_effect);
}

} // verus!
