//! Turning saved windows back into launch commands, including
//! terminal-specific restarts that re-open the foreground child in its
//! working directory.
use vstd::prelude::*;
use vstd::string::StringExecFns;
use crate::config::{mappings_wf, AppMapping};
use crate::session::{ascii_lower, child_args, dup_strings, SavedWindow};
use crate::text::{
    chars_of, lines_of, opt_view, parse_u32, push_char, push_str, spec_lines, spec_parse_u32,
    spec_trim, split_char, split_on, split_whitespace, starts_with_str, str_eq, trim, views, words,
};

verus! {

/// `s` with each `'` replaced by `'\''`.
pub open spec fn escape_quotes(s: Seq<char>) -> Seq<char>
    decreases s.len(),
{
    if s.len() == 0 {
        seq![]
    } else {
        escape_quotes(s.drop_last()) + if s.last() == '\'' {
            "'\\''"@
        } else {
            seq![s.last()]
        }
    }
}

/// `s` quoted for `sh`: wrapped in single quotes, inner single quotes
/// escaped; the empty string becomes `''`.
pub open spec fn spec_shell_escape(s: Seq<char>) -> Seq<char> {
    if s.len() == 0 {
        "''"@
    } else {
        "'"@ + escape_quotes(s) + "'"@
    }
}

/// Quotes `s` for `sh` (see `spec_shell_escape`).
pub fn shell_escape(s: &str) -> (r: String)
    ensures
        r@ == spec_shell_escape(s@),
{
    let v = chars_of(s);
    if v.len() == 0 {
        return String::from_str("''");
    }
    let mut r = String::from_str("'");
    let mut i: usize = 0;
    while i < v.len()
        invariant
            i <= v.len(),
            v@ == s@,
            r@ == "'"@ + escape_quotes(s@.take(i as int)),
        decreases v.len() - i,
    {
        assert(s@.take(i + 1).drop_last() == s@.take(i as int));
        if v[i] == '\'' {
            push_str(&mut r, "'\\''");
        } else {
            push_char(&mut r, v[i]);
        }
        assert(r@ == "'"@ + escape_quotes(s@.take(i + 1)));
        i = i + 1;
    }
    assert(s@.take(v.len() as int) == s@);
    push_str(&mut r, "'");
    r
}

/// What `sh` reads from a word built of single-quoted runs and
/// backslash-escaped characters (`quoted`: inside a single-quoted run):
/// the characters with quotes and escapes removed. `None` for anything
/// else: an unterminated quote, or an unquoted character that is not
/// escaped (which the shell could split on or expand).
pub open spec fn sh_read(t: Seq<char>, quoted: bool) -> Option<Seq<char>>
    decreases t.len(),
{
    if t.len() == 0 {
        if quoted {
            None
        } else {
            Some(seq![])
        }
    } else if quoted {
        if t[0] == '\'' {
            sh_read(t.drop_first(), false)
        } else {
            match sh_read(t.drop_first(), true) {
                Some(r) => Some(seq![t[0]] + r),
                None => None,
            }
        }
    } else if t[0] == '\'' {
        sh_read(t.drop_first(), true)
    } else if t[0] == '\\' && t.len() >= 2 {
        match sh_read(t.subrange(2, t.len() as int), false) {
            Some(r) => Some(seq![t[1]] + r),
            None => None,
        }
    } else {
        None
    }
}

/// The escape of one character inside a single-quoted run.
pub open spec fn escape_char(c: char) -> Seq<char> {
    if c == '\'' {
        "'\\''"@
    } else {
        seq![c]
    }
}

proof fn lemma_escape_front(c: char, s: Seq<char>)
    ensures
        escape_quotes(seq![c] + s) == escape_char(c) + escape_quotes(s),
    decreases s.len(),
{
    if s.len() == 0 {
        assert((seq![c] + s).drop_last() =~= Seq::<char>::empty());
        assert(seq![c] + s =~= seq![c]);
        assert(escape_quotes(Seq::<char>::empty()) =~= Seq::<char>::empty());
        assert(escape_quotes(seq![c]) =~= escape_char(c));
    } else {
        lemma_escape_front(c, s.drop_last());
        assert((seq![c] + s).drop_last() =~= seq![c] + s.drop_last());
        assert((seq![c] + s).last() == s.last());
        assert(escape_quotes(seq![c] + s) =~= escape_char(c) + escape_quotes(s));
    }
}

proof fn lemma_read_escaped(s: Seq<char>, rest: Seq<char>)
    ensures
        sh_read(escape_quotes(s) + seq!['\''] + rest, true) == match sh_read(rest, false) {
            Some(r) => Some(s + r),
            None => None,
        },
    decreases s.len(),
{
    reveal_strlit("'\\''");
    if s.len() == 0 {
        assert(escape_quotes(s) =~= Seq::<char>::empty());
        let t = escape_quotes(s) + seq!['\''] + rest;
        assert(t =~= seq!['\''] + rest);
        assert(t.drop_first() =~= rest);
        assert(sh_read(t, true) == sh_read(rest, false));
        match sh_read(rest, false) {
            Some(r) => {
                assert(s + r =~= r);
            },
            None => {},
        }
    } else {
        let c = s[0];
        let tail = s.drop_first();
        assert(s =~= seq![c] + tail);
        lemma_escape_front(c, tail);
        lemma_read_escaped(tail, rest);
        let inner = escape_quotes(tail) + seq!['\''] + rest;
        let t = escape_quotes(s) + seq!['\''] + rest;
        assert(t =~= escape_char(c) + inner);
        if c == '\'' {
            assert(escape_char(c) =~= seq!['\'', '\\', '\'', '\'']);
            assert(t.drop_first() =~= seq!['\\', '\'', '\''] + inner);
            let u = t.drop_first();
            let u2 = u.subrange(2, u.len() as int);
            assert(u2 =~= seq!['\''] + inner);
            assert(u2.drop_first() =~= inner);
            assert(sh_read(t, true) == sh_read(u, false));
            assert(sh_read(u, false) == match sh_read(u2, false) {
                Some(r) => Some(seq![u[1]] + r),
                None => None,
            });
            assert(sh_read(u2, false) == sh_read(inner, true));
            match sh_read(rest, false) {
                Some(r) => {
                    assert(seq![c] + (tail + r) =~= s + r);
                },
                None => {},
            }
        } else {
            assert(t =~= seq![c] + inner);
            assert(t.drop_first() =~= inner);
            assert(sh_read(t, true) == match sh_read(inner, true) {
                Some(r) => Some(seq![c] + r),
                None => None,
            });
            match sh_read(rest, false) {
                Some(r) => {
                    assert(seq![c] + (tail + r) =~= s + r);
                },
                None => {},
            }
        }
    }
}

/// A quoted word is read back by `sh` as exactly the original text: no
/// character of it is left unquoted to be split on, expanded or run.
pub proof fn law_shell_escape_reads_back(s: Seq<char>)
    ensures
        sh_read(spec_shell_escape(s), false) == Some(s),
{
    reveal_strlit("''");
    reveal_strlit("'");
    if s.len() == 0 {
        let t = spec_shell_escape(s);
        assert(t =~= seq!['\'', '\'']);
        assert(t.drop_first() =~= seq!['\'']);
        assert(t.drop_first().drop_first() =~= Seq::<char>::empty());
        assert(s =~= Seq::<char>::empty());
    } else {
        let t = spec_shell_escape(s);
        lemma_read_escaped(s, Seq::<char>::empty());
        assert(t.drop_first() =~= escape_quotes(s) + seq!['\''] + Seq::<char>::empty());
        assert(s + Seq::<char>::empty() =~= s);
    }
}

/// How a terminal takes its working directory.
#[derive(Debug, Clone, Copy, PartialEq, Eq)]
pub enum CwdFlag {
    /// The flag, then the directory as its own argument.
    Separated(&'static str),
    /// The flag with the directory appended in one argument.
    Joined(&'static str),
}

/// The terminal emulators with known command-line conventions.
#[derive(Debug, Clone, Copy, PartialEq, Eq, Structural)]
pub enum TerminalProfile {
    Kitty,
    Foot,
    Wezterm,
    Ghostty,
    Alacritty,
    Generic,
}

/// `str::to_lowercase`: Unicode lowercase mapping.
pub uninterp spec fn spec_lowercase(s: Seq<char>) -> Seq<char>;

/// Whether every character of `s` is ASCII.
pub open spec fn is_ascii_text(s: Seq<char>) -> bool {
    forall|i: int| 0 <= i < s.len() ==> (#[trigger] s[i] as u32) < 0x80
}

/// `s` with `A`-`Z` mapped to `a`-`z`.
pub open spec fn ascii_lowercase(s: Seq<char>) -> Seq<char> {
    s.map_values(|c: char| ascii_lower(c))
}

/// `str::to_lowercase`. The contract claims that the result is the named
/// function `spec_lowercase` of the text, and that ASCII text maps character
/// by character (`A`-`Z` to `a`-`z`, all else unchanged); the Unicode
/// mapping of other characters is left unsaid.
#[verifier::external_body]
fn lowercase(s: &str) -> (r: String)
    ensures
        r@ == spec_lowercase(s@),
        is_ascii_text(s@) ==> r@ == ascii_lowercase(s@),
{
    s.to_lowercase()
}

/// The part of `s` after its last `.` (all of `s` without a `.`).
pub open spec fn last_segment(s: Seq<char>) -> Seq<char>
    decreases s.len(),
{
    if s.len() == 0 {
        s
    } else if s.last() == '.' {
        seq![]
    } else {
        last_segment(s.drop_last()).push(s.last())
    }
}

/// The profile named by a lowercase executable name's last dot segment.
pub open spec fn profile_of_lower(lower: Seq<char>) -> TerminalProfile {
    let seg = last_segment(lower);
    if seg == "kitty"@ {
        TerminalProfile::Kitty
    } else if seg == "foot"@ {
        TerminalProfile::Foot
    } else if seg == "wezterm"@ {
        TerminalProfile::Wezterm
    } else if seg == "ghostty"@ {
        TerminalProfile::Ghostty
    } else if seg == "alacritty"@ {
        TerminalProfile::Alacritty
    } else {
        TerminalProfile::Generic
    }
}

/// The profile an executable name stands for, by its lowercased name
/// (for ASCII names, the ASCII lowercase).
pub open spec fn profile_of(name: Seq<char>) -> TerminalProfile {
    if is_ascii_text(name) {
        profile_of_lower(ascii_lowercase(name))
    } else {
        profile_of_lower(spec_lowercase(name))
    }
}

/// The profile of the last of the first `n` arguments that names a known
/// terminal, or `Generic`.
pub open spec fn profile_of_args(args: Seq<Seq<char>>, n: int) -> TerminalProfile
    decreases n,
{
    if n <= 0 || n > args.len() {
        TerminalProfile::Generic
    } else if profile_of(args[n - 1]) != TerminalProfile::Generic {
        profile_of(args[n - 1])
    } else {
        profile_of_args(args, n - 1)
    }
}

fn last_segment_of(v: &Vec<char>) -> (r: String)
    ensures
        r@ == last_segment(v@),
{
    let mut i: usize = v.len();
    assert(v@.take(v.len() as int) == v@);
    assert(v@.subrange(v.len() as int, v.len() as int) == Seq::<char>::empty());
    assert(v@ + Seq::<char>::empty() == v@);
    while i > 0 && v[i - 1] != '.'
        invariant
            i <= v.len(),
            last_segment(v@) == last_segment(v@.take(i as int)) + v@.subrange(i as int, v.len() as int),
        decreases i,
    {
        assert(v@.take(i as int).drop_last() == v@.take(i - 1));
        assert(v@.subrange(i - 1, v.len() as int) == seq![v@[i - 1]] + v@.subrange(
            i as int,
            v.len() as int,
        ));
        i = i - 1;
    }
    proof {
        if i > 0 {
            assert(v@.take(i as int).last() == '.');
        } else {
            assert(v@.take(0) == Seq::<char>::empty());
        }
        assert(v@.take(v.len() as int) == v@);
    }
    crate::text::string_from_range(v, i, v.len())
}

impl TerminalProfile {
    /// The profile named by an already lowercased executable name: its part
    /// after the last `.` picks the terminal (`org.wezfurlong.wezterm` is
    /// wezterm), anything else is `Generic`.
    pub fn from_lowercase_name(lower: &str) -> (p: Self)
        ensures
            p == profile_of_lower(lower@),
    {
        let v = chars_of(lower);
        let seg = last_segment_of(&v);
        let s = seg.as_str();
        if str_eq(s, "kitty") {
            TerminalProfile::Kitty
        } else if str_eq(s, "foot") {
            TerminalProfile::Foot
        } else if str_eq(s, "wezterm") {
            TerminalProfile::Wezterm
        } else if str_eq(s, "ghostty") {
            TerminalProfile::Ghostty
        } else if str_eq(s, "alacritty") {
            TerminalProfile::Alacritty
        } else {
            TerminalProfile::Generic
        }
    }

    /// The profile an executable name stands for, case-insensitively.
    pub fn from_executable(name: &str) -> (p: Self)
        ensures
            p == profile_of(name@),
    {
        let lower = lowercase(name);
        Self::from_lowercase_name(lower.as_str())
    }

    /// The last argument that names a known terminal decides the profile
    /// (a launcher prefix such as `flatpak run` comes first).
    pub fn from_args(args: &Vec<String>) -> (p: Self)
        ensures
            p == profile_of_args(views(args@), args.len() as int),
    {
        let ghost a = views(args@);
        let mut n: usize = args.len();
        while n > 0
            invariant
                n <= args.len(),
                a == views(args@),
                profile_of_args(a, args.len() as int) == profile_of_args(a, n as int),
            decreases n,
        {
            let p = Self::from_executable(args[n - 1].as_str());
            if p != TerminalProfile::Generic {
                return p;
            }
            n = n - 1;
        }
        TerminalProfile::Generic
    }

    /// Whether the terminal needs a `start` subcommand before its flags.
    pub fn needs_start_subcommand(self) -> (b: bool)
        ensures
            b == (self == TerminalProfile::Wezterm),
    {
        match self {
            TerminalProfile::Wezterm => true,
            _ => false,
        }
    }

    /// The terminal's working-directory flag.
    pub fn cwd_flag(self) -> (f: CwdFlag)
        ensures
            f == spec_cwd_flag(self),
    {
        match self {
            TerminalProfile::Kitty => CwdFlag::Separated("--directory"),
            TerminalProfile::Foot | TerminalProfile::Alacritty | TerminalProfile::Generic => {
                CwdFlag::Separated("--working-directory")
            },
            TerminalProfile::Wezterm => CwdFlag::Separated("--cwd"),
            TerminalProfile::Ghostty => CwdFlag::Joined("--working-directory="),
        }
    }

    /// The flag that introduces the command to run, if the terminal needs one.
    pub fn cmd_flag(self) -> (f: Option<&'static str>)
        ensures
            f == spec_cmd_flag(self),
    {
        match self {
            TerminalProfile::Kitty | TerminalProfile::Foot => None,
            TerminalProfile::Wezterm => Some("--"),
            TerminalProfile::Ghostty | TerminalProfile::Alacritty | TerminalProfile::Generic => Some(
                "-e",
            ),
        }
    }
}

/// Working-directory flag per profile.
pub open spec fn spec_cwd_flag(p: TerminalProfile) -> CwdFlag {
    match p {
        TerminalProfile::Kitty => CwdFlag::Separated("--directory"),
        TerminalProfile::Foot | TerminalProfile::Alacritty | TerminalProfile::Generic => {
            CwdFlag::Separated("--working-directory")
        },
        TerminalProfile::Wezterm => CwdFlag::Separated("--cwd"),
        TerminalProfile::Ghostty => CwdFlag::Joined("--working-directory="),
    }
}

/// Command flag per profile.
pub open spec fn spec_cmd_flag(p: TerminalProfile) -> Option<&'static str> {
    match p {
        TerminalProfile::Kitty | TerminalProfile::Foot => None,
        TerminalProfile::Wezterm => Some("--"),
        TerminalProfile::Ghostty | TerminalProfile::Alacritty | TerminalProfile::Generic => Some("-e"),
    }
}

/// The quoted arguments joined by single spaces.
pub open spec fn escaped_join(args: Seq<Seq<char>>) -> Seq<char>
    decreases args.len(),
{
    if args.len() == 0 {
        seq![]
    } else if args.len() == 1 {
        spec_shell_escape(args[0])
    } else {
        escaped_join(args.drop_last()) + " "@ + spec_shell_escape(args.last())
    }
}

/// The directory to start the terminal in: the saved one, unless it is
/// empty or the home directory.
pub open spec fn effective_cwd(working_dir: Option<Seq<char>>, home: Seq<char>) -> Option<Seq<char>> {
    match working_dir {
        Some(d) => if d.len() > 0 && d != home {
            Some(d)
        } else {
            None
        },
        None => None,
    }
}

/// The arguments that pass the working directory to a terminal.
pub open spec fn cwd_args(p: TerminalProfile, cwd: Option<Seq<char>>) -> Seq<Seq<char>> {
    match cwd {
        None => seq![],
        Some(d) => match spec_cwd_flag(p) {
            CwdFlag::Separated(f) => seq![f@, d],
            CwdFlag::Joined(f) => seq![f@ + d],
        },
    }
}

/// The command that restarts a terminal running `child` in `working_dir`:
/// the launch prefix, `start` for wezterm, the working-directory flag
/// (unless the directory is empty or `home`), the command flag, then
/// `sh -c "<quoted child>; exec <quoted shell>"` so the terminal keeps a
/// shell after the child exits.
pub open spec fn spec_restore_command(
    prefix: Seq<Seq<char>>,
    p: TerminalProfile,
    child: Seq<Seq<char>>,
    working_dir: Option<Seq<char>>,
    home: Seq<char>,
    shell: Seq<char>,
) -> Seq<Seq<char>> {
    prefix + (if p == TerminalProfile::Wezterm {
        seq!["start"@]
    } else {
        seq![]
    }) + cwd_args(p, effective_cwd(working_dir, home)) + (match spec_cmd_flag(p) {
        Some(f) => seq![f@],
        None => seq![],
    }) + seq!["sh"@, "-c"@, escaped_join(child) + "; exec "@ + spec_shell_escape(shell)]
}

fn push_view(v: &mut Vec<String>, s: String)
    ensures
        views(final(v)@) == views(old(v)@).push(s@),
        final(v)@ == old(v)@.push(s),
{
    v.push(s);
    assert(views(v@) =~= views(old(v)@).push(s@));
}

fn escaped_join_of(args: &Vec<String>) -> (r: String)
    ensures
        r@ == escaped_join(views(args@)),
{
    let ghost a = views(args@);
    let mut r = String::new();
    let mut i: usize = 0;
    while i < args.len()
        invariant
            i <= args.len(),
            a == views(args@),
            r@ == escaped_join(a.take(i as int)),
        decreases args.len() - i,
    {
        assert(a.take(i + 1).drop_last() == a.take(i as int));
        assert(a.take(i + 1).last() == args@[i as int]@);
        if i > 0 {
            push_str(&mut r, " ");
        } else {
            assert(a.take(0) == Seq::<Seq<char>>::empty());
        }
        let e = shell_escape(args[i].as_str());
        push_str(&mut r, e.as_str());
        i = i + 1;
    }
    assert(a.take(args.len() as int) == a);
    r
}

/// Builds the command that restarts a terminal with its foreground child
/// (see `spec_restore_command`). `home` is the user's home directory and
/// `restore_shell` the shell the terminal falls back to.
pub fn build_terminal_restore_command(
    launch_prefix: &Vec<String>,
    profile: TerminalProfile,
    child_cmd: &Vec<String>,
    working_dir: Option<&str>,
    home: &str,
    restore_shell: &str,
) -> (cmd: Vec<String>)
    ensures
        views(cmd@) == spec_restore_command(
            views(launch_prefix@),
            profile,
            views(child_cmd@),
            match working_dir {
                Some(d) => Some(d@),
                None => None,
            },
            home@,
            restore_shell@,
        ),
{
    let mut cmd = dup_strings(launch_prefix);
    let ghost c0 = views(cmd@);
    if profile.needs_start_subcommand() {
        push_view(&mut cmd, String::from_str("start"));
    }
    let ghost c1 = views(cmd@);
    let effective = match working_dir {
        Some(d) => {
            if !d.is_empty() && !str_eq(d, home) {
                Some(d)
            } else {
                None
            }
        },
        None => None,
    };
    match effective {
        Some(cwd) => match profile.cwd_flag() {
            CwdFlag::Separated(flag) => {
                push_view(&mut cmd, String::from_str(flag));
                push_view(&mut cmd, String::from_str(cwd));
            },
            CwdFlag::Joined(flag) => {
                let mut joined = String::from_str(flag);
                push_str(&mut joined, cwd);
                push_view(&mut cmd, joined);
            },
        },
        None => {},
    }
    let ghost c2 = views(cmd@);
    match profile.cmd_flag() {
        Some(flag) => {
            push_view(&mut cmd, String::from_str(flag));
        },
        None => {},
    }
    let ghost c3 = views(cmd@);
    let mut tail = escaped_join_of(child_cmd);
    push_str(&mut tail, "; exec ");
    let esc = shell_escape(restore_shell);
    push_str(&mut tail, esc.as_str());
    push_view(&mut cmd, String::from_str("sh"));
    push_view(&mut cmd, String::from_str("-c"));
    push_view(&mut cmd, tail);
    proof {
        let wd = match working_dir {
            Some(d) => Some(d@),
            None => None,
        };
        assert(c1 == c0 + (if profile == TerminalProfile::Wezterm {
            seq!["start"@]
        } else {
            seq![]
        }));
        assert(c2 == c1 + cwd_args(profile, effective_cwd(wd, home@)));
        assert(c3 == c2 + (match spec_cmd_flag(profile) {
            Some(f) => seq![f@],
            None => seq![],
        }));
        assert(views(cmd@) =~= c3 + seq![
            "sh"@,
            "-c"@,
            escaped_join(views(child_cmd@)) + "; exec "@ + spec_shell_escape(restore_shell@),
        ]);
    }
    cmd
}

/// The launch command mapped to an app id: the first table entry for it.
pub open spec fn mapping_for(mappings: Seq<AppMapping>, a: Seq<char>, n: int) -> Option<Seq<Seq<char>>>
    decreases n,
{
    if n <= 0 || n > mappings.len() {
        None
    } else {
        match mapping_for(mappings, a, n - 1) {
            Some(c) => Some(c),
            None => if mappings[n - 1].app_id@ == a {
                Some(views(mappings[n - 1].command@))
            } else {
                None
            },
        }
    }
}

/// The launch command for an app id: its mapping, else the app id itself.
pub open spec fn mapped_command(mappings: Seq<AppMapping>, a: Seq<char>) -> Seq<Seq<char>> {
    match mapping_for(mappings, a, mappings.len() as int) {
        Some(c) => c,
        None => seq![a],
    }
}

/// The command that restores a saved window: a terminal with captured
/// foreground state is restarted with it (see `spec_restore_command`, the
/// profile taken from the mapped command), anything else gets its mapped
/// launch command.
pub open spec fn spec_spawn_command(
    a: Seq<char>,
    w: SavedWindow,
    mappings: Seq<AppMapping>,
    home: Seq<char>,
    shell: Seq<char>,
) -> Seq<Seq<char>> {
    let mapped = mapped_command(mappings, a);
    match w.terminal_state {
        Some(ts) => match ts.child_command {
            Some(c) => if child_args(c).len() > 0 {
                spec_restore_command(
                    mapped,
                    profile_of_args(mapped, mapped.len() as int),
                    child_args(c),
                    match ts.child_cwd {
                        Some(d) => Some(d@),
                        None => None,
                    },
                    home,
                    shell,
                )
            } else {
                mapped
            },
            None => mapped,
        },
        None => mapped,
    }
}

proof fn lemma_mapping_for_unique(ms: Seq<AppMapping>, k: int, n: int)
    requires
        mappings_wf(ms),
        0 <= k < ms.len(),
        0 <= n <= ms.len(),
    ensures
        n <= k ==> mapping_for(ms, ms[k].app_id@, n) is None,
        n > k ==> mapping_for(ms, ms[k].app_id@, n) == Some(views(ms[k].command@)),
    decreases n,
{
    if n > 0 {
        lemma_mapping_for_unique(ms, k, n - 1);
    }
}

/// Under a well-formed table the first-match lookup finds an app's one
/// entry: each entry's app id maps to that entry's command, wherever it
/// stands in the table.
pub proof fn law_mapping_lookup_finds_the_entry(ms: Seq<AppMapping>, k: int)
    requires
        mappings_wf(ms),
        0 <= k < ms.len(),
    ensures
        mapped_command(ms, ms[k].app_id@) == views(ms[k].command@),
{
    lemma_mapping_for_unique(ms, k, ms.len() as int);
}

fn lookup_mapping(mappings: &Vec<AppMapping>, app_id: &str) -> (r: Vec<String>)
    ensures
        views(r@) == mapped_command(mappings@, app_id@),
{
    let mut n: usize = 0;
    while n < mappings.len()
        invariant
            n <= mappings.len(),
            mapping_for(mappings@, app_id@, n as int) is None,
        decreases mappings.len() - n,
    {
        if str_eq(mappings[n].app_id.as_str(), app_id) {
            proof {
                lemma_mapping_found(mappings@, app_id@, n as int + 1, mappings.len() as int);
            }
            return dup_strings(&mappings[n].command);
        }
        n = n + 1;
    }
    let mut r: Vec<String> = Vec::new();
    push_view(&mut r, String::from_str(app_id));
    assert(views(r@) =~= seq![app_id@]);
    r
}

proof fn lemma_mapping_found(mappings: Seq<AppMapping>, a: Seq<char>, n: int, m: int)
    requires
        0 < n <= m <= mappings.len(),
        mapping_for(mappings, a, n) is Some,
    ensures
        mapping_for(mappings, a, m) == mapping_for(mappings, a, n),
    decreases m - n,
{
    if m > n {
        lemma_mapping_found(mappings, a, n, m - 1);
    }
}

/// Builds the command that restores `saved_window` (see `spec_spawn_command`).
pub fn build_spawn_command(
    app_id: &str,
    saved_window: &SavedWindow,
    app_mappings: &Vec<AppMapping>,
    home: &str,
    restore_shell: &str,
) -> (cmd: Vec<String>)
    ensures
        views(cmd@) == spec_spawn_command(app_id@, *saved_window, app_mappings@, home@, restore_shell@),
{
    let mapped = lookup_mapping(app_mappings, app_id);
    match &saved_window.terminal_state {
        Some(ts) => match &ts.child_command {
            Some(c) => {
                let args = c.to_args();
                if args.len() > 0 {
                    let profile = TerminalProfile::from_args(&mapped);
                    let cwd: Option<&str> = match &ts.child_cwd {
                        Some(d) => Some(d.as_str()),
                        None => None,
                    };
                    return build_terminal_restore_command(
                        &mapped,
                        profile,
                        &args,
                        cwd,
                        home,
                        restore_shell,
                    );
                }
                mapped
            },
            None => mapped,
        },
        None => mapped,
    }
}

/// `dir` stands in `cmd` right behind the argument `flag`.
pub open spec fn dir_follows(cmd: Seq<Seq<char>>, flag: Seq<char>, dir: Seq<char>) -> bool {
    exists|i: int| 0 <= i && i + 1 < cmd.len() && #[trigger] cmd[i] == flag && cmd[i + 1] == dir
}

/// A terminal restored from captured state reopens in its saved working
/// directory: when the child command is non-empty and the directory is
/// non-empty and not `home`, the spawn command starts with the mapped
/// launch command and carries the directory behind the profile's flag
/// (`--directory` for kitty, `--cwd` for wezterm, `--working-directory`
/// for foot, alacritty and unknown terminals, `--working-directory=<dir>`
/// in one argument for ghostty), and it ends by running the quoted child
/// through `sh -c` with an `exec` of the quoted shell behind it.
pub proof fn law_spawn_command_keeps_the_working_directory(
    a: Seq<char>,
    w: SavedWindow,
    mappings: Seq<AppMapping>,
    home: Seq<char>,
    shell: Seq<char>,
)
    requires
        w.terminal_state is Some,
        w.terminal_state->0.child_command is Some,
        child_args(w.terminal_state->0.child_command->0).len() > 0,
        w.terminal_state->0.child_cwd is Some,
        w.terminal_state->0.child_cwd->0@.len() > 0,
        w.terminal_state->0.child_cwd->0@ != home,
    ensures
        ({
            let mapped = mapped_command(mappings, a);
            let cmd = spec_spawn_command(a, w, mappings, home, shell);
            let p = profile_of_args(mapped, mapped.len() as int);
            let d = w.terminal_state->0.child_cwd->0@;
            &&& mapped.len() <= cmd.len()
            &&& cmd.take(mapped.len() as int) == mapped
            &&& (p == TerminalProfile::Kitty ==> dir_follows(cmd, "--directory"@, d))
            &&& (p == TerminalProfile::Wezterm ==> dir_follows(cmd, "--cwd"@, d))
            &&& ((p == TerminalProfile::Foot || p == TerminalProfile::Alacritty
                || p == TerminalProfile::Generic) ==> dir_follows(cmd, "--working-directory"@, d))
            &&& (p == TerminalProfile::Ghostty ==> cmd.contains("--working-directory="@ + d))
            &&& cmd.len() >= mapped.len() + 5
            &&& cmd.last() == escaped_join(child_args(w.terminal_state->0.child_command->0))
                + "; exec "@ + spec_shell_escape(shell)
            &&& cmd[cmd.len() - 2] == "-c"@
            &&& cmd[cmd.len() - 3] == "sh"@
        }),
{
    let mapped = mapped_command(mappings, a);
    let cmd = spec_spawn_command(a, w, mappings, home, shell);
    let p = profile_of_args(mapped, mapped.len() as int);
    let d = w.terminal_state->0.child_cwd->0@;
    let start: Seq<Seq<char>> = if p == TerminalProfile::Wezterm {
        seq!["start"@]
    } else {
        seq![]
    };
    let ca = cwd_args(p, effective_cwd(Some(d), home));
    let cf: Seq<Seq<char>> = match spec_cmd_flag(p) {
        Some(f) => seq![f@],
        None => seq![],
    };
    let tail = seq![
        "sh"@,
        "-c"@,
        escaped_join(child_args(w.terminal_state->0.child_command->0)) + "; exec "@
            + spec_shell_escape(shell),
    ];
    assert(cmd == mapped + start + ca + cf + tail);
    let i: int = mapped.len() as int + start.len() as int;
    assert(cmd.take(mapped.len() as int) =~= mapped);
    match spec_cwd_flag(p) {
        CwdFlag::Separated(f) => {
            assert(ca == seq![f@, d]);
            assert(cmd[i] == f@);
            assert(cmd[i + 1] == d);
        },
        CwdFlag::Joined(f) => {
            assert(ca == seq![f@ + d]);
            assert(cmd[i] == f@ + d);
        },
    }
}

/// A window without captured terminal state, or whose captured child
/// command is empty, is spawned by its mapped launch command alone.
pub proof fn law_spawn_command_without_state_is_the_launch_command(
    a: Seq<char>,
    w: SavedWindow,
    mappings: Seq<AppMapping>,
    home: Seq<char>,
    shell: Seq<char>,
)
    requires
        w.terminal_state is None || w.terminal_state->0.child_command is None || child_args(
            w.terminal_state->0.child_command->0,
        ).len() == 0,
    ensures
        spec_spawn_command(a, w, mappings, home, shell) == mapped_command(mappings, a),
{
}

/// Index of the first line, from `j` on, that starts with `p`.
pub open spec fn first_prefixed(ls: Seq<Seq<char>>, p: Seq<char>, j: int) -> Option<int>
    decreases ls.len() - j,
{
    if j < 0 || j >= ls.len() {
        None
    } else if p.len() <= ls[j].len() && ls[j].subrange(0, p.len() as int) == p {
        Some(j)
    } else {
        first_prefixed(ls, p, j + 1)
    }
}

/// The real uid in a `/proc/self/status` text: the second word of its first
/// `Uid:` line.
pub open spec fn status_uid(status: Seq<char>) -> Option<u32> {
    let ls = spec_lines(status);
    match first_prefixed(ls, "Uid:"@, 0) {
        Some(i) => {
            let ws = words(ls[i]);
            if ws.len() > 1 {
                spec_parse_u32(ws[1])
            } else {
                None
            }
        },
        None => None,
    }
}

/// The login shell a password-database line gives user `uid`: its seventh
/// `:`-separated field, trimmed, when its third field is `uid` and the shell
/// is not empty.
pub open spec fn passwd_line_shell(l: Seq<char>, uid: u32) -> Option<Seq<char>> {
    let f = split_on(l, ':');
    if f.len() > 2 && spec_parse_u32(f[2]) == Some(uid) {
        let sh = if f.len() > 6 {
            spec_trim(f[6])
        } else {
            seq![]
        };
        if sh.len() > 0 {
            Some(sh)
        } else {
            None
        }
    } else {
        None
    }
}

/// The login shell of the first line, from `j` on, that gives one for `uid`.
pub open spec fn passwd_shell(ls: Seq<Seq<char>>, uid: u32, j: int) -> Option<Seq<char>>
    decreases ls.len() - j,
{
    if j < 0 || j >= ls.len() {
        None
    } else {
        match passwd_line_shell(ls[j], uid) {
            Some(sh) => Some(sh),
            None => passwd_shell(ls, uid, j + 1),
        }
    }
}

/// The login shell of the current user, from the texts of `/proc/self/status`
/// and `/etc/passwd`.
pub open spec fn spec_shell_from_passwd(status: Seq<char>, passwd: Seq<char>) -> Option<Seq<char>> {
    match status_uid(status) {
        Some(uid) => passwd_shell(spec_lines(passwd), uid, 0),
        None => None,
    }
}

fn uid_from_status(status: &str) -> (r: Option<u32>)
    ensures
        r == status_uid(status@),
{
    let ls = lines_of(status);
    let ghost lv = views(ls@);
    let mut i: usize = 0;
    while i < ls.len()
        invariant
            i <= ls.len(),
            lv == views(ls@),
            lv == spec_lines(status@),
            first_prefixed(lv, "Uid:"@, 0) == first_prefixed(lv, "Uid:"@, i as int),
        decreases ls.len() - i,
    {
        assert(lv[i as int] == ls@[i as int]@);
        if starts_with_str(ls[i].as_str(), "Uid:") {
            let ws = split_whitespace(ls[i].as_str());
            if ws.len() > 1 {
                assert(views(ws@)[1] == ws@[1]@);
                return parse_u32(ws[1].as_str());
            }
            return None;
        }
        i = i + 1;
    }
    None
}

fn shell_of_passwd_line(line: &str, uid: u32) -> (r: Option<String>)
    ensures
        opt_view(r) == passwd_line_shell(line@, uid),
{
    let f = split_char(line, ':');
    let ghost fv = views(f@);
    if f.len() > 2 {
        assert(fv[2] == f@[2]@);
        match parse_u32(f[2].as_str()) {
            Some(x) => {
                if x == uid {
                    if f.len() > 6 {
                        assert(fv[6] == f@[6]@);
                        let sh = trim(f[6].as_str());
                        if !sh.as_str().is_empty() {
                            return Some(sh);
                        }
                    }
                }
            },
            None => {},
        }
    }
    None
}

/// The login shell of the current user: the uid from the `/proc/self/status`
/// text `status`, looked up in the `/etc/passwd` text `passwd`.
pub fn get_shell_from_passwd(status: &str, passwd: &str) -> (r: Option<String>)
    ensures
        opt_view(r) == spec_shell_from_passwd(status@, passwd@),
{
    let uid = match uid_from_status(status) {
        Some(u) => u,
        None => return None,
    };
    let ls = lines_of(passwd);
    let ghost lv = views(ls@);
    let mut i: usize = 0;
    while i < ls.len()
        invariant
            i <= ls.len(),
            lv == views(ls@),
            lv == spec_lines(passwd@),
            status_uid(status@) == Some(uid),
            passwd_shell(lv, uid, 0) == passwd_shell(lv, uid, i as int),
        decreases ls.len() - i,
    {
        assert(lv[i as int] == ls@[i as int]@);
        let found = shell_of_passwd_line(ls[i].as_str(), uid);
        if found.is_some() {
            return found;
        }
        i = i + 1;
    }
    None
}

/// The shell a restored terminal falls back to: `$SHELL` when set and
/// non-empty, else the login shell from the password database, else `/bin/sh`.
pub fn choose_restore_shell(env_shell: Option<&str>, passwd_shell: Option<&str>) -> (s: String)
    ensures
        s@ == match env_shell {
            Some(e) if e@.len() > 0 => e@,
            _ => match passwd_shell {
                Some(p) => p@,
                None => "/bin/sh"@,
            },
        },
{
    match env_shell {
        Some(e) => {
            if !e.is_empty() {
                return String::from_str(e);
            }
        },
        None => {},
    }
    match passwd_shell {
        Some(p) => String::from_str(p),
        None => String::from_str("/bin/sh"),
    }
}

} // verus!
