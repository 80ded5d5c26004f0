//! How configs are installed, split and judged, and what `doctor` looks at.
use vstd::prelude::*;

use super::configs::{
    add_refusal, default_name, error_messages, linting_from, messages, without_repeats,
    writing_private,
};
use super::doctor::{
    checking_tunnel, checking_tunnels_from, checking_version, judged, octal, open_to_others,
    stale_check,
};
use super::live_laws::{law_reading_conf, law_resolving};
use super::recovery::interfaces;
use super::split::{allowed_line, rewritten, routed, split_holes, split_name};
use super::{BackendView, CheckView};
use crate::config;
use crate::config::{ConfSummaryView, TunnelView};
use crate::config_laws;
use crate::dns;
use crate::error::ErrorView;
use crate::lint;
use crate::lint::{FindingView, LintResultView};
use crate::order;
use crate::session::{ActionView, FileTextView, ReplyView, SessionView};
use crate::text;

verus! {

// ---------------------------------------------------------------------------
// Lint
// ---------------------------------------------------------------------------

/// Every config is judged, one after the other; each has one outcome, under the name of
/// its tunnel, and by what its file holds.
pub proof fn law_lint_every_tunnel(
    s: SessionView,
    tunnels: Seq<TunnelView>,
    i: int,
    results: Seq<LintResultView>,
)
    requires
        0 <= i <= tunnels.len(),
    ensures
        i == tunnels.len() ==> linting_from(s, tunnels, i, results).0 == s && (linting_from(
            s,
            tunnels,
            i,
            results,
        ).1 matches Some(Ok(all)) && all == results),
        i < tunnels.len() ==> ({
            let (t, summed) = config::summarizing(s, tunnels[i].path);
            match summed {
                Some(Ok(sum)) => linting_from(s, tunnels, i, results) == linting_from(
                    t,
                    tunnels,
                    i + 1,
                    results.push(lint::linted(tunnels[i].name, sum)),
                ),
                Some(Err(e)) => linting_from(s, tunnels, i, results).1 matches Some(Err(told))
                    && told == e,
                None => linting_from(s, tunnels, i, results).1 is None,
            }
        }),
        linting_from(s, tunnels, i, results).1 matches Some(Ok(all)) ==> all.len() == results.len()
            + tunnels.len() - i && forall|k: int|
            0 <= k < tunnels.len() - i ==> (#[trigger] all[results.len() + k]).name == tunnels[i
                + k].name,
    decreases tunnels.len() - i,
{
    if i < tunnels.len() {
        let (t, summed) = config::summarizing(s, tunnels[i].path);
        if let Some(Ok(sum)) = summed {
            let one = lint::linted(tunnels[i].name, sum);
            let next = results.push(one);
            law_lint_every_tunnel(t, tunnels, i + 1, next);
            if let Some(Ok(all)) = linting_from(s, tunnels, i, results).1 {
                lemma_lint_prefix(t, tunnels, i + 1, next);
                assert forall|k: int| 0 <= k < tunnels.len() - i implies (#[trigger] all[results.len()
                    + k]).name == tunnels[i + k].name by {
                    if k > 0 {
                        assert(all[next.len() + (k - 1)].name == tunnels[i + 1 + (k - 1)].name);
                    } else {
                        assert(all.take(next.len() as int)[results.len() as int] == one);
                    }
                }
            }
        }
    }
}

/// What was judged already stays.
proof fn lemma_lint_prefix(
    s: SessionView,
    tunnels: Seq<TunnelView>,
    i: int,
    results: Seq<LintResultView>,
)
    requires
        0 <= i <= tunnels.len(),
    ensures
        linting_from(s, tunnels, i, results).1 matches Some(Ok(all)) ==> all.len() >= results.len()
            && all.take(results.len() as int) == results,
    decreases tunnels.len() - i,
{
    if i < tunnels.len() {
        let (t, summed) = config::summarizing(s, tunnels[i].path);
        if let Some(Ok(sum)) = summed {
            let next = results.push(lint::linted(tunnels[i].name, sum));
            lemma_lint_prefix(t, tunnels, i + 1, next);
            if let Some(Ok(all)) = linting_from(s, tunnels, i, results).1 {
                let n = results.len() as int;
                assert(all.take(n) =~= all.take(n + 1).take(n));
                assert(next.take(n) =~= results);
            }
        }
    } else {
        assert(results.take(results.len() as int) =~= results);
    }
}

/// The configs that are judged are those selected.
pub proof fn law_linting(b: BackendView, s: SessionView, name: Option<Seq<char>>)
    ensures
        match b.selecting(s, name).1 {
            Some(Ok(tunnels)) => b.linting(s, name) == linting_from(
                b.selecting(s, name).0,
                tunnels,
                0,
                Seq::empty(),
            ),
            Some(Err(e)) => b.linting(s, name).1 matches Some(Err(told)) && told == e,
            None => b.linting(s, name).1 is None,
        },
{
}

// ---------------------------------------------------------------------------
// Writing a config
// ---------------------------------------------------------------------------

/// A config is written into the config directory, which is made where missing, and then
/// closed to others; each step that fails is the error, and the last.
pub proof fn law_writing_private(
    s: SessionView,
    dest: Seq<char>,
    contents: Seq<char>,
    dir: Seq<char>,
    made: Result<(), Seq<char>>,
    written: Result<(), Seq<char>>,
    closed: Result<(), Seq<char>>,
)
    requires
        s.asked.len() + 3 <= s.replies.len(),
        s.replies[s.asked.len() as int] == ReplyView::Finished(made),
        s.replies[s.asked.len() as int + 1] == ReplyView::Finished(written),
        s.replies[s.asked.len() as int + 2] == ReplyView::Finished(closed),
    ensures
        ({
            let (t, done) = writing_private(s, dest, contents, dir);
            let all = seq![
                ActionView::CreateDir(dir),
                ActionView::WriteFile { path: dest, contents },
                ActionView::Restrict { path: dest, mode: 0o600 },
            ];
            match (made, written, closed) {
                (Err(source), _, _) => t.asked == s.asked + all.take(1) && (done matches Some(
                    Err(e),
                ) && e == ErrorView::ConfigDir(dir, source)),
                (Ok(_), Err(source), _) => t.asked == s.asked + all.take(2) && (done matches Some(
                    Err(e),
                ) && e == (ErrorView::Write { path: dest, source })),
                (Ok(_), Ok(_), Err(source)) => t.asked == s.asked + all && (done matches Some(
                    Err(e),
                ) && e == (ErrorView::Write { path: dest, source })),
                (Ok(_), Ok(_), Ok(_)) => t.asked == s.asked + all && (done matches Some(Ok(_))),
            }
        }),
{
    let (t, done) = writing_private(s, dest, contents, dir);
    let all = seq![
        ActionView::CreateDir(dir),
        ActionView::WriteFile { path: dest, contents },
        ActionView::Restrict { path: dest, mode: 0o600 },
    ];
    if made is Err {
        assert(t.asked =~= s.asked + all.take(1));
    } else if written is Err {
        assert(t.asked =~= s.asked + all.take(2));
    } else {
        assert(t.asked =~= s.asked + all);
    }
}

// ---------------------------------------------------------------------------
// Add
// ---------------------------------------------------------------------------

/// A config is called after its file, without the extension.
pub proof fn law_default_name(dir: Seq<char>, stem: Seq<char>, extension: Seq<char>)
    requires
        stem.len() > 0,
        !stem.contains('/'),
        !extension.contains('/'),
        !extension.contains('.'),
        extension.len() > 0,
    ensures
        default_name(dir + seq!['/'] + (stem + seq!['.'] + extension)) == stem,
        default_name(stem + seq!['.'] + extension) == stem,
{
    reveal_strlit(".");
    reveal_strlit("..");
    let file = stem + seq!['.'] + extension;
    assert forall|i: int| 0 <= i < file.len() implies file[i] != '/' by {
        if i < stem.len() {
            assert(stem.contains(stem[i]));
        } else if i > stem.len() {
            assert(extension.contains(extension[i - stem.len() - 1]));
        }
    }
    assert(file.len() > 2);
    config_laws::law_file_name(dir, file);
    config_laws::law_stem_and_extension(stem, extension);
}

/// Of neighbours that are the same one stays: nothing is lost, no two neighbours are
/// the same in the end, and nothing else is changed.
pub proof fn law_without_repeats(items: Seq<Seq<char>>, x: Seq<char>)
    ensures
        without_repeats(items.push(x)) == if items.len() > 0 && items.last() == x {
            without_repeats(items)
        } else {
            without_repeats(items).push(x)
        },
        ({
            let r = without_repeats(items);
            &&& items.len() > 0 ==> r.len() > 0 && r.last() == items.last()
            &&& forall|i: int| 0 < i < r.len() ==> #[trigger] r[i] != r[i - 1]
            &&& forall|x: Seq<char>| #[trigger] r.contains(x) <==> items.contains(x)
            &&& (forall|i: int| 0 < i < items.len() ==> #[trigger] items[i] != items[i - 1]) ==> r
                == items
        }),
    decreases items.len(),
{
    assert(items.push(x).drop_last() =~= items);
    if items.len() > 0 {
        let t = items.drop_last();
        law_without_repeats(t, x);
        let before = without_repeats(t);
        let r = without_repeats(items);
        assert(items[items.len() - 1] == items.last());
        assert forall|x: Seq<char>| #[trigger] r.contains(x) <==> items.contains(x) by {
            if before.contains(x) {
                let k = choose|k: int| 0 <= k < before.len() && before[k] == x;
                assert(r[k] == x);
                let i = choose|i: int| 0 <= i < t.len() && t[i] == x;
                assert(items[i] == x);
            }
            if x == items.last() {
                assert(r[r.len() - 1] == x);
            }
            if items.contains(x) && x != items.last() {
                let i = choose|i: int| 0 <= i < items.len() && items[i] == x;
                assert(t[i] == x);
            }
            if r.contains(x) && x != items.last() {
                let k = choose|k: int| 0 <= k < r.len() && r[k] == x;
                assert(before[k] == x);
            }
        }
        if forall|i: int| 0 < i < items.len() ==> #[trigger] items[i] != items[i - 1] {
            assert forall|i: int| 0 < i < t.len() implies #[trigger] t[i] != t[i - 1] by {
                assert(items[i] != items[i - 1]);
            }
            assert(r =~= items);
        }
        assert forall|i: int| 0 < i < r.len() implies #[trigger] r[i] != r[i - 1] by {
            if i < before.len() {
                assert(before[i] != before[i - 1]);
            } else {
                assert(r[i - 1] == before.last());
                assert(before.last() == t.last());
                assert(t.last() == items[items.len() - 2]);
            }
        }
    }
}

/// The messages of findings, and of those that are errors, all of them and in order.
pub proof fn law_messages(findings: Seq<FindingView>)
    ensures
        messages(findings) == findings.map_values(|f: FindingView| f.message),
        error_messages(findings) == findings.filter_map(
            |f: FindingView|
                if f.severity is Error {
                    Some(f.message)
                } else {
                    None
                },
        ),
    decreases findings.len(),
{
    if findings.len() > 0 {
        law_messages(findings.drop_last());
    }
    assert(error_messages(findings) =~= findings.filter_map(
        |f: FindingView|
            if f.severity is Error {
                Some(f.message)
            } else {
                None
            },
    ));
}

/// A config with shell hooks is refused unless they are allowed, whatever is forced;
/// one with another error unless it is forced; and no other is.
pub proof fn law_add_refusal(
    name: Seq<char>,
    source: Seq<char>,
    sum: ConfSummaryView,
    force: bool,
    allow_hooks: bool,
)
    ensures
        ({
            let refusal = add_refusal(name, source, sum, force, allow_hooks);
            let rest = lint::linted(name, ConfSummaryView { exec_hooks: Seq::empty(), ..sum });
            if sum.exec_hooks.len() > 0 && !allow_hooks {
                refusal == Some(
                    ErrorView::Refused(
                        "refusing to add '"@ + source + "' — it contains shell hook(s) ("@
                            + text::join(without_repeats(sum.exec_hooks), ", "@)
                            + ") that wg-quick runs as root; this is a privilege-escalation risk. Remove them, or pass --allow-hooks if you fully trust this file (--force will NOT bypass this)"@,
                    ),
                )
            } else if !force && !rest.ok {
                refusal == Some(
                    ErrorView::Refused(
                        "refusing to add '"@ + source + "' — fix these or pass --force: "@
                            + text::join(error_messages(rest.findings), "; "@),
                    ),
                )
            } else {
                refusal is None
            }
        }),
{
}

/// A config that is not refused is installed as it is under its name, unless there is
/// one already and it is not forced; nothing is written where it is refused.
pub proof fn law_adding(
    b: BackendView,
    s: SessionView,
    source: Seq<char>,
    given: Option<Seq<char>>,
    force: bool,
    allow_hooks: bool,
    conf: Seq<char>,
)
    requires
        s.asked.len() < s.replies.len(),
        s.replies[s.asked.len() as int] == ReplyView::Contents(FileTextView::Text(conf)),
    ensures
        ({
            let name = match given {
                Some(n) => n,
                None => default_name(source),
            };
            let sum = config::summary(conf);
            let dest = config::conf_path(b.config_dir, name);
            let (t, done) = b.adding(s, source, given, force, allow_hooks);
            let n = s.asked.len() as int;
            if !config::valid_name(name) {
                t == s && (done matches Some(Err(e)) && e == ErrorView::InvalidName(name))
            } else {
                match add_refusal(name, source, sum, force, allow_hooks) {
                    Some(refusal) => t.asked == s.asked.push(ActionView::ReadFile(source)) && (
                    done matches Some(Err(e)) && e == refusal),
                    None => n + 2 < s.replies.len() && s.replies[n + 2] == ReplyView::Contents(
                        FileTextView::Text(conf),
                    ) ==> (s.replies[n + 1] matches ReplyView::Flag(there) ==> {
                        let looked = s.asked.push(ActionView::ReadFile(source)).push(
                            ActionView::Exists(dest),
                        );
                        if there && !force {
                            t.asked == looked && (done matches Some(Err(e)) && e
                                == ErrorView::Refused(
                                "'"@ + dest + "' already exists — pass --force to overwrite"@,
                            ))
                        } else {
                            let read = SessionView {
                                asked: looked.push(ActionView::ReadFile(source)),
                                ..s
                            };
                            let (u, written) = writing_private(read, dest, conf, b.config_dir);
                            &&& t == u
                            &&& written matches Some(Ok(_)) ==> (done matches Some(Ok(x)) && x == (
                                name,
                                dest,
                                lint::linted(name, sum),
                            ))
                            &&& written matches Some(Err(e)) ==> (done matches Some(Err(told))
                                && told == e)
                        }
                    }),
                }
            }
        }),
{
}

// ---------------------------------------------------------------------------
// Split
// ---------------------------------------------------------------------------

/// A sibling is called after its tunnel, unless it is given a name.
pub proof fn law_split_name(name: Seq<char>, output: Seq<char>)
    ensures
        split_name(name, Some(output)) == output,
        split_name(name, None) == name + "-split"@,
{
}

/// A sibling is written under its name, with what is left of its config, and nothing
/// else is written; it routes one block for each of those left, and all of IPv6.
pub proof fn law_splitting(
    b: BackendView,
    s: SessionView,
    name: Seq<char>,
    excludes: Seq<Seq<char>>,
    output: Option<Seq<char>>,
    keep_dns: bool,
    force: bool,
    conf: Seq<char>,
    there: bool,
)
    requires
        config::valid_name(name),
        s.asked.len() + 3 < s.replies.len(),
        s.replies[s.asked.len() as int] == ReplyView::Flag(true),
        s.replies[s.asked.len() as int + 1] == ReplyView::Contents(FileTextView::Text(conf)),
        s.replies[s.asked.len() as int + 2] == ReplyView::Flag(there),
        s.replies[s.asked.len() as int + 3] == ReplyView::Contents(FileTextView::Text(conf)),
    ensures
        ({
            let path = config::conf_path(b.config_dir, name);
            let own = split_name(name, output);
            let dest = config::conf_path(b.config_dir, own);
            let (t, done) = b.splitting(s, name, excludes, output, keep_dns, force);
            let read = s.asked.push(ActionView::IsFile(path)).push(ActionView::ReadFile(path));
            match split_holes(config::summary(conf).endpoint, excludes) {
                Err(refusal) => t.asked == read && (done matches Some(Err(e)) && e == refusal),
                Ok(kept_out) => if !config::valid_name(own) {
                    t.asked == read && (done matches Some(Err(e)) && e == ErrorView::InvalidName(
                        own,
                    ))
                } else if there && !force {
                    t.asked == read.push(ActionView::Exists(dest)) && (done matches Some(Err(e)) && e
                        == ErrorView::Refused(
                        "'"@ + dest + "' already exists — pass --force to overwrite"@,
                    ))
                } else {
                    let again = SessionView {
                        asked: read.push(ActionView::Exists(dest)).push(
                            ActionView::ReadFile(path),
                        ),
                        ..s
                    };
                    match rewritten(conf, allowed_line(routed(kept_out)), keep_dns) {
                        None => t == again && (done matches Some(Err(e)) && e == ErrorView::Refused(
                            "config has no AllowedIPs line to rewrite"@,
                        )),
                        Some(sibling) => {
                            let (u, written) = writing_private(again, dest, sibling, b.config_dir);
                            &&& t == u
                            &&& written matches Some(Ok(_)) ==> (done matches Some(Ok(x)) && x.0
                                == own && x.1 == dest && x.2 == (routed(kept_out).len()
                                + 1) as usize)
                            &&& written matches Some(Err(e)) ==> (done matches Some(Err(told))
                                && told == e)
                        },
                    }
                },
            }
        }),
{
    let path = config::conf_path(b.config_dir, name);
    law_resolving(s, b.config_dir, name);
    let s1 = config::resolving(s, b.config_dir, name).0;
    law_reading_conf(s1, path);
}

// ---------------------------------------------------------------------------
// Doctor
// ---------------------------------------------------------------------------

/// A check that failed.
pub open spec fn fails(c: CheckView, name: Seq<char>, detail: Seq<char>) -> bool {
    c.name == name && !c.ok && c.detail == detail
}

/// A check that passed.
pub open spec fn passes(c: CheckView, name: Seq<char>, detail: Seq<char>) -> bool {
    c.name == name && c.ok && c.detail == detail
}

/// Permission bits are written in octal, and a file is open to others exactly if the
/// group or the others have any.
pub proof fn law_mode(user: nat, group: nat, other: nat, rest: nat, mode: u32)
    requires
        user < 8,
        group < 8,
        other < 8,
        mode == rest * 512 + user * 64 + group * 8 + other,
    ensures
        octal(mode as nat % 512) == text::number(user) + text::number(group) + text::number(other),
        open_to_others(mode) <==> group > 0 || other > 0,
{
    let m = mode as nat % 512;
    assert(m == user * 64 + group * 8 + other);
    assert(m / 64 % 8 == user);
    assert(m / 8 % 8 == group);
    assert(m % 8 == other);
    assert(text::number(user) =~= seq![text::digit(user)]);
    assert(text::number(group) =~= seq![text::digit(group)]);
    assert(text::number(other) =~= seq![text::digit(other)]);
    assert(octal(m) =~= text::number(user) + text::number(group) + text::number(other));
}

/// A program is there where it tells its version, of which the first line is shown.
pub proof fn law_checking_version(s: SessionView, label: Seq<char>, program: Seq<char>)
    ensures
        ({
            let n = s.asked.len() as int;
            let (t, done) = checking_version(s, label, program);
            &&& t.asked == s.asked.push(ActionView::Run { program, args: seq!["--version"@] })
            &&& n < s.replies.len() ==> match s.replies[n] {
                ReplyView::Ran(Ok(out)) => {
                    &&& done matches Some(c)
                    &&& out.code == Some(0i32) && text::lines(out.stdout).len() > 0 ==> passes(
                        c,
                        label,
                        text::trim(text::lines(out.stdout)[0]),
                    )
                    &&& out.code == Some(0i32) && text::lines(out.stdout).len() == 0 ==> passes(
                        c,
                        label,
                        text::trim("found"@),
                    )
                    &&& out.code != Some(0i32) ==> fails(
                        c,
                        label,
                        "'"@ + program + " --version' exited "@ + text::signed_number(
                            match out.code {
                                Some(code) => code as int,
                                None => -1,
                            },
                        ),
                    )
                },
                ReplyView::Ran(Err(source)) => done matches Some(c) && fails(
                    c,
                    label,
                    "cannot run '"@ + program + "': "@ + source,
                ),
                _ => done is None,
            }
        }),
{
}

/// `wg-quick` is there where it can be run at all.
pub proof fn law_checking_quick(b: BackendView, s: SessionView)
    ensures
        ({
            let n = s.asked.len() as int;
            let (t, done) = b.checking_quick(s);
            &&& t.asked == s.asked.push(
                ActionView::Run { program: b.wg_quick, args: Seq::empty() },
            )
            &&& n < s.replies.len() ==> match s.replies[n] {
                ReplyView::Ran(Ok(_)) => done matches Some(c) && passes(
                    c,
                    "wg-quick"@,
                    "found ("@ + b.wg_quick + ")"@,
                ),
                ReplyView::Ran(Err(source)) => done matches Some(c) && fails(
                    c,
                    "wg-quick"@,
                    "cannot run '"@ + b.wg_quick + "': "@ + source
                        + " — install wireguard-tools"@,
                ),
                _ => done is None,
            }
        }),
{
}

/// `sudo` works where it runs `wg --version` without a password.
pub proof fn law_checking_sudo(b: BackendView, s: SessionView)
    ensures
        ({
            let n = s.asked.len() as int;
            let (t, done) = b.checking_sudo(s);
            &&& t.asked == s.asked.push(
                ActionView::Run { program: "sudo"@, args: seq!["-n"@, b.wg, "--version"@] },
            )
            &&& n < s.replies.len() ==> match s.replies[n] {
                ReplyView::Ran(Ok(out)) => {
                    &&& done matches Some(c)
                    &&& out.code == Some(0i32) ==> passes(c, "sudo"@, "passwordless sudo works"@)
                    &&& out.code != Some(0i32) ==> fails(
                        c,
                        "sudo"@,
                        "sudo -n failed: "@ + text::trim(out.stderr)
                            + " — add a NOPASSWD rule for "@ + b.wg_quick + " and "@ + b.wg,
                    )
                },
                ReplyView::Ran(Err(source)) => done matches Some(c) && fails(
                    c,
                    "sudo"@,
                    "cannot run sudo: "@ + source,
                ),
                _ => done is None,
            }
        }),
{
}

/// The state is readable where the dump is, and the live interfaces are counted, each
/// once.
pub proof fn law_checking_state(b: BackendView, s: SessionView)
    ensures
        b.checking_state(s).0 == b.dumping(s).0,
        match b.dumping(s).1 {
            Some(Ok(dump)) => b.checking_state(s).1 matches Some(c) && passes(
                c,
                "wg state"@,
                "readable ("@ + text::number(order::text_set(interfaces(dump)).len())
                    + " live interface(s))"@,
            ),
            Some(Err(e)) => b.checking_state(s).1 matches Some(c) && fails(
                c,
                "wg state"@,
                e.message(),
            ),
            None => b.checking_state(s).1 is None,
        },
{
}

/// The programs are looked at in order: `wg`, `wg-quick`, `curl`, then `sudo` where it
/// is used, and the state.
pub proof fn law_checking_programs(
    b: BackendView,
    s: SessionView,
    wg: CheckView,
    quick: CheckView,
    curl: CheckView,
    sudo: CheckView,
    readable: CheckView,
)
    ensures
        ({
            let (s1, c1) = checking_version(s, "wg"@, b.wg);
            let (s2, c2) = b.checking_quick(s1);
            let (s3, c3) = checking_version(s2, "curl"@, b.curl);
            let (s4, c4) = if b.sudo {
                b.checking_sudo(s3)
            } else {
                (s3, Some(sudo))
            };
            let (s5, c5) = b.checking_state(s4);
            c1 == Some(wg) && c2 == Some(quick) && c3 == Some(curl) && c4 == Some(sudo) && c5
                == Some(readable) ==> b.checking_programs(s) == (
                s5,
                Some(
                    if b.sudo {
                        seq![wg, quick, curl, sudo, readable]
                    } else {
                        seq![wg, quick, curl, readable]
                    },
                ),
            )
        }),
{
    assert(seq![wg, quick, curl].push(sudo).push(readable) =~= seq![
        wg,
        quick,
        curl,
        sudo,
        readable,
    ]);
    assert(seq![wg, quick, curl].push(readable) =~= seq![wg, quick, curl, readable]);
}

/// A config without errors passes unless its file is open to others; what else was
/// found is shown.
pub proof fn law_judged(tunnel: TunnelView, result: LintResultView, mode: Option<u32>)
    ensures
        ({
            let c = judged(tunnel, result, mode);
            let name = "config:"@ + tunnel.name;
            if mode is Some && open_to_others(mode->0) {
                fails(
                    c,
                    name,
                    "private key readable by others (mode "@ + octal(mode->0 as nat % 512)
                        + ") — chmod 600 '"@ + tunnel.path + "'"@,
                )
            } else if result.findings.len() == 0 {
                passes(c, name, "ok"@)
            } else {
                passes(
                    c,
                    name,
                    "ok ("@ + text::join(messages(result.findings), "; "@) + ")"@,
                )
            }
        }),
{
}

/// A config fails where it cannot be read and where it has errors, which are shown;
/// otherwise its permissions decide.
pub proof fn law_checking_tunnel(s: SessionView, tunnel: TunnelView)
    ensures
        ({
            let name = "config:"@ + tunnel.name;
            let (s1, summed) = config::summarizing(s, tunnel.path);
            let (t, done) = checking_tunnel(s, tunnel);
            match summed {
                None => done is None,
                Some(Err(e)) => t == s1 && (done matches Some(c) && fails(c, name, e.message())),
                Some(Ok(sum)) => {
                    let result = lint::linted(tunnel.name, sum);
                    let n = s1.asked.len() as int;
                    &&& !result.ok ==> t == s1 && (done matches Some(c) && fails(
                        c,
                        name,
                        text::join(error_messages(result.findings), "; "@),
                    ))
                    &&& result.ok ==> t.asked == s1.asked.push(ActionView::FileMode(tunnel.path))
                    &&& result.ok && n < s1.replies.len() ==> (s1.replies[n] matches ReplyView::Mode(
                        mode,
                    ) ==> done == Some(judged(tunnel, result, mode)))
                },
            }
        }),
{
}

/// Every config has its check, in order, behind the one of the directory.
pub proof fn law_checking_configs(
    b: BackendView,
    s: SessionView,
    tunnels: Seq<TunnelView>,
    i: int,
    checks: Seq<CheckView>,
)
    requires
        0 <= i <= tunnels.len(),
    ensures
        i == tunnels.len() ==> checking_tunnels_from(s, tunnels, i, checks) == (s, Some(checks)),
        i < tunnels.len() ==> ({
            let (t, one) = checking_tunnel(s, tunnels[i]);
            match one {
                Some(c) => checking_tunnels_from(s, tunnels, i, checks) == checking_tunnels_from(
                    t,
                    tunnels,
                    i + 1,
                    checks.push(c),
                ),
                None => checking_tunnels_from(s, tunnels, i, checks).1 is None,
            }
        }),
        match config::discovering(s, b.config_dir).1 {
            Some(Ok(all)) => b.checking_configs(s, checks) == checking_tunnels_from(
                config::discovering(s, b.config_dir).0,
                all,
                0,
                checks.push(
                    CheckView {
                        name: "config dir"@,
                        ok: true,
                        detail: text::number(all.len()) + " tunnel(s) in "@ + b.config_dir,
                    },
                ),
            ),
            Some(Err(e)) => b.checking_configs(s, checks) == (
                config::discovering(s, b.config_dir).0,
                Some(
                    checks.push(
                        CheckView { name: "config dir"@, ok: false, detail: e.message() },
                    ),
                ),
            ),
            None => b.checking_configs(s, checks).1 is None,
        },
{
}

/// The DNS passes where a tunnel is up, which then owns it, and where nothing is stale;
/// it fails where something is. There is no such check where no config declares
/// servers, and where it cannot be made.
pub proof fn law_checking_dns(b: BackendView, s: SessionView)
    ensures
        ({
            let (s1, collected) = b.collecting_dns(s);
            let (t, done) = b.checking_dns(s);
            collected matches Some(declared) ==> if declared.len() == 0 {
                t == s1 && done == Some(None::<CheckView>)
            } else {
                let (s2, named) = b.naming_active(s1);
                match named {
                    None => done is None,
                    Some(Err(_)) => t == s2 && done == Some(None::<CheckView>),
                    Some(Ok(active)) => if active.len() > 0 {
                        t == s2 && (done matches Some(Some(c)) && passes(
                            c,
                            "dns"@,
                            "VPN DNS active while up (owned by "@ + text::join(active, ", "@)
                                + ")"@,
                        ))
                    } else {
                        let (s3, stale) = dns::finding_stale(s2, declared);
                        &&& t == s3
                        &&& match stale {
                            None => done is None,
                            Some(None) => done == Some(None::<CheckView>),
                            Some(Some(services)) => done == Some(Some(stale_check(services))),
                        }
                    },
                }
            }
        }),
        ({
            let none = Seq::<Seq<char>>::empty();
            passes(stale_check(none), "dns"@, "no stale VPN DNS on any network service"@)
        }),
{
}

/// What is said of services with stale servers.
pub proof fn law_stale_check(services: Seq<Seq<char>>)
    requires
        services.len() > 0,
    ensures
        fails(
            stale_check(services),
            "dns"@,
            "stale VPN DNS pinned on "@ + text::join(services, ", "@)
                + " — name resolution is broken while tunnels are down; run 'vpn down <name>' to repair, or: networksetup -setdnsservers '<service>' Empty"@,
        ),
{
}

/// `doctor` looks at the programs, the configs and the DNS, in this order.
pub proof fn law_diagnosing(b: BackendView, s: SessionView)
    ensures
        ({
            let (s1, programs) = b.checking_programs(s);
            programs matches Some(first) ==> {
                let (s2, configs) = b.checking_configs(s1, first);
                configs matches Some(second) ==> {
                    let (s3, dns) = b.checking_dns(s2);
                    dns matches Some(third) ==> b.diagnosing(s) == (
                        s3,
                        Some(
                            match third {
                                Some(c) => second.push(c),
                                None => second,
                            },
                        ),
                    )
                }
            }
        }),
{
}

} // verus!
