//! The command-line options, parsed before the GTK application is built.
//!
//! `GApplication` would try to parse the flags itself, so the app is run with
//! only argv[0] and everything here is read by hand.

use vstd::prelude::*;
use crate::text::{chars_of, same_text, string_of};

verus! {

/// The default application id.
pub const APP_ID: &'static str = "io.iwd.niri-groom";

/// Default layer-shell namespace (niri matches the surface by this);
/// `--app-id` overrides it.
pub const APP_NAMESPACE: &'static str = "niri-groom";

/// Parsed command-line options.
pub struct Opts {
    /// Start in solo mode on the output with this name (if it exists).
    pub solo_monitor: Option<String>,
    /// Place the overlay surface on this output (niri can't position a layer
    /// surface from config, so the client must request it).
    pub output: Option<String>,
    /// The layer-shell namespace (what niri matches the surface by). `--app-id`
    /// sets it, so niri config can target a given instance for its rules.
    pub namespace: String,
    /// `--toggle`: a second launch of the same instance closes it instead of
    /// re-presenting, so one keybind opens and closes the overlay.
    pub toggle: bool,
    /// `--focus`: move niri's focus onto the overlay's output at launch, so the
    /// exclusive-keyboard surface grabs the keyboard even when opened elsewhere.
    pub focus: bool,
}

/// Options as plain values.
pub struct OptsShape {
    pub solo_monitor: Option<Seq<char>>,
    pub output: Option<Seq<char>>,
    pub namespace: Seq<char>,
    pub toggle: bool,
    pub focus: bool,
}

pub open spec fn text_of(t: Option<String>) -> Option<Seq<char>> {
    match t {
        Some(s) => Some(s@),
        None => None,
    }
}

pub open spec fn opts_shape(o: Opts) -> OptsShape {
    OptsShape {
        solo_monitor: text_of(o.solo_monitor),
        output: text_of(o.output),
        namespace: o.namespace@,
        toggle: o.toggle,
        focus: o.focus,
    }
}

/// The position of the first `c` in `s`.
pub open spec fn first_index(s: Seq<char>, c: char) -> Option<int>
    decreases s.len(),
{
    if s.len() == 0 {
        None
    } else {
        match first_index(s.drop_last(), c) {
            Some(i) => Some(i),
            None => if s.last() == c { Some(s.len() - 1) } else { None },
        }
    }
}

/// An argument split at its first `=`, as `str::split_once` splits it: the
/// flag, and the inline value when there is one.
pub open spec fn split_flag(arg: Seq<char>) -> (Seq<char>, Option<Seq<char>>) {
    match first_index(arg, '=') {
        Some(p) => (arg.take(p), Some(arg.skip(p + 1))),
        None => (arg, None),
    }
}

/// Whether a flag takes a value.
pub open spec fn takes_value(flag: Seq<char>) -> bool {
    flag == "--app-id"@ || flag == "--solo"@ || flag == "--open-on-monitor"@
}

/// The options as read from `argv[i..]` on top of `acc`. A flag that takes a
/// value takes the inline one or else the next argument (missing at the end);
/// `--app-id` keeps the default when the value is missing. Anything else is
/// skipped.
pub open spec fn read_from(argv: Seq<Seq<char>>, i: int, acc: OptsShape) -> OptsShape
    decreases argv.len() + 1 - i,
{
    if i < 0 || i >= argv.len() {
        acc
    } else {
        let (flag, inline) = split_flag(argv[i]);
        if flag == "--toggle"@ {
            read_from(argv, i + 1, OptsShape { toggle: true, ..acc })
        } else if flag == "--focus"@ {
            read_from(argv, i + 1, OptsShape { focus: true, ..acc })
        } else if takes_value(flag) {
            let val = if inline is Some { inline } else if i + 1 < argv.len() { Some(argv[i + 1]) } else { None };
            let next = if inline is Some { i + 1 } else { i + 2 };
            let acc2 = if flag == "--app-id"@ {
                match val {
                    Some(v) => OptsShape { namespace: v, ..acc },
                    None => acc,
                }
            } else if flag == "--solo"@ {
                OptsShape { solo_monitor: val, ..acc }
            } else {
                OptsShape { output: val, ..acc }
            };
            read_from(argv, next, acc2)
        } else {
            read_from(argv, i + 1, acc)
        }
    }
}

/// The default options.
pub open spec fn default_opts() -> OptsShape {
    OptsShape { solo_monitor: None, output: None, namespace: APP_NAMESPACE@, toggle: false, focus: false }
}

/// The options a full argv gives, its first entry being the program name.
pub open spec fn options_of(argv: Seq<Seq<char>>) -> OptsShape {
    read_from(argv, 1, default_opts())
}

fn split_arg(arg: &str) -> (r: (String, Option<String>))
    ensures
        (r.0@, text_of(r.1)) == split_flag(arg@),
{
    let cs = chars_of(arg);
    let mut p: usize = 0;
    while p < cs.len()
        invariant
            cs@ == arg@,
            p <= cs.len(),
            first_index(arg@.take(p as int), '=') is None,
        decreases cs.len() - p,
    {
        assert(arg@.take(p + 1).drop_last() =~= arg@.take(p as int));
        if cs[p] == '=' {
            proof { lemma_first_index_prefix(arg@, '=', (p + 1) as nat); }
            let key = string_of(&cs.as_slice()[0..p]);
            let mut rest: Vec<char> = Vec::new();
            let mut j: usize = p + 1;
            while j < cs.len()
                invariant
                    cs@ == arg@,
                    p < j <= cs.len(),
                    rest@ == arg@.subrange(p + 1, j as int),
                decreases cs.len() - j,
            {
                rest.push(cs[j]);
                assert(arg@.subrange(p + 1, j + 1) =~= arg@.subrange(p + 1, j as int).push(arg@[j as int]));
                j += 1;
            }
            let value = string_of(rest.as_slice());
            assert(key@ =~= arg@.take(p as int));
            assert(value@ =~= arg@.skip(p + 1));
            return (key, Some(value));
        }
        p += 1;
    }
    assert(arg@.take(cs.len() as int) =~= arg@);
    (arg.to_string(), None)
}

proof fn lemma_first_index_prefix(s: Seq<char>, c: char, n: nat)
    requires
        n <= s.len(),
        first_index(s.take(n as int), c) is Some,
    ensures
        first_index(s, c) == first_index(s.take(n as int), c),
    decreases s.len() - n,
{
    if n < s.len() {
        assert(s.take((n + 1) as int).drop_last() =~= s.take(n as int));
        lemma_first_index_prefix(s, c, n + 1);
    } else {
        assert(s.take(n as int) =~= s);
    }
}

fn copy_text(t: &Option<String>) -> (r: Option<String>)
    ensures
        text_of(r) == text_of(*t),
{
    match t {
        Some(s) => Some(s.clone()),
        None => None,
    }
}

/// Read the options out of a full argv, whose first entry is the program name.
/// An unknown flag is skipped, and a flag missing its value leaves the default.
pub fn parse_argv(argv: &[String]) -> (o: Opts)
    ensures
        opts_shape(o) == options_of(argv@.map_values(|a: String| a@)),
{
    let ghost av = argv@.map_values(|a: String| a@);
    let mut namespace = APP_NAMESPACE.to_string();
    let mut solo_monitor: Option<String> = None;
    let mut output: Option<String> = None;
    let mut toggle = false;
    let mut focus = false;
    let mut i: usize = 1;
    while i < argv.len()
        invariant
            av == argv@.map_values(|a: String| a@),
            i >= 1,
            read_from(av, i as int, OptsShape {
                solo_monitor: text_of(solo_monitor),
                output: text_of(output),
                namespace: namespace@,
                toggle,
                focus,
            }) == options_of(av),
        decreases argv.len() - i,
    {
        assert(av[i as int] == argv@[i as int]@);
        let (key, inline) = split_arg(argv[i].as_str());
        if same_text(key.as_str(), "--toggle") {
            toggle = true;
            i += 1;
        } else if same_text(key.as_str(), "--focus") {
            focus = true;
            i += 1;
        } else {
            let is_app_id = same_text(key.as_str(), "--app-id");
            let is_solo = same_text(key.as_str(), "--solo");
            let is_output = same_text(key.as_str(), "--open-on-monitor");
            if is_app_id || is_solo || is_output {
                let has_inline = inline.is_some();
                let val = if has_inline {
                    inline
                } else if i + 1 < argv.len() {
                    assert(av[i + 1] == argv@[i + 1]@);
                    Some(argv[i + 1].clone())
                } else {
                    None
                };
                if is_app_id {
                    match val {
                        Some(v) => {
                            namespace = v;
                        },
                        None => {},
                    }
                } else if is_solo {
                    solo_monitor = val;
                } else {
                    output = val;
                }
                let ghost now = OptsShape {
                    solo_monitor: text_of(solo_monitor),
                    output: text_of(output),
                    namespace: namespace@,
                    toggle,
                    focus,
                };
                if !has_inline && i + 1 >= argv.len() {
                    assert(read_from(av, i + 2, now) == now);
                    assert(read_from(av, argv.len() as int, now) == now);
                }
                i = if has_inline { i + 1 } else if i + 1 < argv.len() { i + 2 } else { argv.len() };
            } else {
                i += 1;
            }
        }
    }
    Opts { solo_monitor, output, namespace, toggle, focus }
}

/// A text without `c` has no first `c`; in one whose first `c` is at `p`,
/// `first_index` finds it there.
proof fn lemma_first_index_at(s: Seq<char>, c: char, p: int)
    requires
        0 <= p <= s.len(),
        forall|j: int| 0 <= j < p ==> s[j] != c,
        p < s.len() ==> s[p] == c,
    ensures
        first_index(s, c) == (if p < s.len() { Some(p) } else { None::<int> }),
    decreases s.len(),
{
    if s.len() > 0 {
        if p < s.len() {
            lemma_first_index_at(s.drop_last(), c, p);
        } else {
            lemma_first_index_at(s.drop_last(), c, p - 1);
        }
    }
}

/// A flag that takes a value reads it from the next argument, whatever that
/// argument is: `--solo v` soloes output `v`, `--open-on-monitor v` opens on
/// output `v`, and `--app-id v` sets the namespace to `v`; the other options
/// keep their defaults.
pub proof fn lemma_flag_then_value(prog: Seq<char>, v: Seq<char>)
    ensures
        options_of(seq![prog, "--solo"@, v]) == (OptsShape { solo_monitor: Some(v), ..default_opts() }),
        options_of(seq![prog, "--open-on-monitor"@, v]) == (OptsShape { output: Some(v), ..default_opts() }),
        options_of(seq![prog, "--app-id"@, v]) == (OptsShape { namespace: v, ..default_opts() }),
{
    reveal_strlit("--solo");
    reveal_strlit("--open-on-monitor");
    reveal_strlit("--app-id");
    reveal_strlit("--toggle");
    reveal_strlit("--focus");
    lemma_first_index_at("--solo"@, '=', "--solo"@.len() as int);
    lemma_first_index_at("--open-on-monitor"@, '=', "--open-on-monitor"@.len() as int);
    lemma_first_index_at("--app-id"@, '=', "--app-id"@.len() as int);
    let a1 = seq![prog, "--solo"@, v];
    let a2 = seq![prog, "--open-on-monitor"@, v];
    let a3 = seq![prog, "--app-id"@, v];
    assert(read_from(a1, 3, OptsShape { solo_monitor: Some(v), ..default_opts() }) == OptsShape { solo_monitor: Some(v), ..default_opts() });
    assert(read_from(a2, 3, OptsShape { output: Some(v), ..default_opts() }) == OptsShape { output: Some(v), ..default_opts() });
    assert(read_from(a3, 3, OptsShape { namespace: v, ..default_opts() }) == OptsShape { namespace: v, ..default_opts() });
}

/// The same flags with the value inline, after `=`, give the same options.
pub proof fn lemma_flag_with_inline_value(prog: Seq<char>, v: Seq<char>)
    ensures
        options_of(seq![prog, "--solo="@ + v]) == (OptsShape { solo_monitor: Some(v), ..default_opts() }),
        options_of(seq![prog, "--open-on-monitor="@ + v]) == (OptsShape { output: Some(v), ..default_opts() }),
        options_of(seq![prog, "--app-id="@ + v]) == (OptsShape { namespace: v, ..default_opts() }),
{
    reveal_strlit("--solo");
    reveal_strlit("--open-on-monitor");
    reveal_strlit("--app-id");
    reveal_strlit("--toggle");
    reveal_strlit("--focus");
    reveal_strlit("--solo=");
    reveal_strlit("--open-on-monitor=");
    reveal_strlit("--app-id=");
    let f1 = "--solo="@ + v;
    let f2 = "--open-on-monitor="@ + v;
    let f3 = "--app-id="@ + v;
    lemma_first_index_at(f1, '=', 6);
    lemma_first_index_at(f2, '=', 17);
    lemma_first_index_at(f3, '=', 8);
    assert(f1.take(6) =~= "--solo"@);
    assert(f1.skip(7) =~= v);
    assert(f2.take(17) =~= "--open-on-monitor"@);
    assert(f2.skip(18) =~= v);
    assert(f3.take(8) =~= "--app-id"@);
    assert("--app-id"@[2] != "--toggle"@[2]);
    assert(f3.skip(9) =~= v);
    let a1 = seq![prog, f1];
    let a2 = seq![prog, f2];
    let a3 = seq![prog, f3];
    assert(read_from(a1, 2, OptsShape { solo_monitor: Some(v), ..default_opts() }) == OptsShape { solo_monitor: Some(v), ..default_opts() });
    assert(read_from(a2, 2, OptsShape { output: Some(v), ..default_opts() }) == OptsShape { output: Some(v), ..default_opts() });
    assert(read_from(a3, 2, OptsShape { namespace: v, ..default_opts() }) == OptsShape { namespace: v, ..default_opts() });
}

/// `--toggle` and `--focus` switch their option on and leave the rest.
pub proof fn lemma_switches(prog: Seq<char>)
    ensures
        options_of(seq![prog, "--toggle"@]) == (OptsShape { toggle: true, ..default_opts() }),
        options_of(seq![prog, "--focus"@]) == (OptsShape { focus: true, ..default_opts() }),
{
    reveal_strlit("--toggle");
    reveal_strlit("--focus");
    lemma_first_index_at("--toggle"@, '=', 8);
    lemma_first_index_at("--focus"@, '=', 7);
    assert(read_from(seq![prog, "--toggle"@], 2, OptsShape { toggle: true, ..default_opts() }) == OptsShape { toggle: true, ..default_opts() });
    assert(read_from(seq![prog, "--focus"@], 2, OptsShape { focus: true, ..default_opts() }) == OptsShape { focus: true, ..default_opts() });
}

/// Reading from one position further along an argv that has one more
/// argument in front gives the same options.
proof fn lemma_read_from_shift(a: Seq<Seq<char>>, b: Seq<Seq<char>>, i: int, acc: OptsShape)
    requires
        i >= 1,
        a.len() == b.len() + 1,
        forall|j: int| 1 <= j < b.len() ==> #[trigger] b[j] == a[j + 1],
    ensures
        read_from(a, i + 1, acc) == read_from(b, i, acc),
    decreases b.len() + 1 - i,
{
    if i < b.len() {
        assert(a[i + 1] == b[i]);
        if i + 1 < b.len() {
            assert(a[i + 2] == b[i + 1]);
        }
        let (flag, inline) = split_flag(b[i]);
        lemma_read_from_shift(a, b, i + 1, OptsShape { toggle: true, ..acc });
        lemma_read_from_shift(a, b, i + 1, OptsShape { focus: true, ..acc });
        lemma_read_from_shift(a, b, i + 1, acc);
        let val = if inline is Some { inline } else if i + 1 < b.len() { Some(b[i + 1]) } else { None };
        let acc2 = if flag == "--app-id"@ {
            match val {
                Some(v) => OptsShape { namespace: v, ..acc },
                None => acc,
            }
        } else if flag == "--solo"@ {
            OptsShape { solo_monitor: val, ..acc }
        } else {
            OptsShape { output: val, ..acc }
        };
        lemma_read_from_shift(a, b, i + 1, acc2);
        if inline is None {
            lemma_read_from_shift(a, b, i + 2, acc2);
        }
    }
}

/// An argument that is not one of the options is skipped: the options read
/// with it in front of the rest are those read from the rest alone.
pub proof fn lemma_unknown_argument_is_skipped(prog: Seq<char>, x: Seq<char>, rest: Seq<Seq<char>>)
    requires
        ({
            let f = split_flag(x).0;
            f != "--toggle"@ && f != "--focus"@ && !takes_value(f)
        }),
    ensures
        options_of(seq![prog, x] + rest) == options_of(seq![prog] + rest),
{
    let a = seq![prog, x] + rest;
    let b = seq![prog] + rest;
    assert forall|j: int| 1 <= j < b.len() implies #[trigger] b[j] == a[j + 1] by {}
    lemma_read_from_shift(a, b, 1, default_opts());
    assert(a[1] == x);
}

/// The id tried when the namespace itself is not a valid application id:
/// the namespace under the default id's domain.
pub open spec fn app_id_candidate_of(namespace: Seq<char>) -> Seq<char> {
    "io.iwd."@ + namespace
}

/// The id tried when the namespace itself is not a valid application id.
pub fn app_id_candidate(namespace: &str) -> (r: String)
    ensures
        r@ == app_id_candidate_of(namespace@),
{
    let mut r = "io.iwd.".to_string();
    r.append(namespace);
    r
}

/// A valid, unique GApplication id derived from the namespace, given whether
/// the namespace and the candidate `io.iwd.<namespace>` are valid ids
/// (single-instance is keyed on it, so distinct namespaces must yield
/// distinct ids): the namespace when valid, else the candidate when valid,
/// else the default id.
pub fn choose_app_id(namespace: &str, namespace_valid: bool, candidate_valid: bool) -> (r: String)
    ensures
        r@ == if namespace_valid {
            namespace@
        } else if candidate_valid {
            app_id_candidate_of(namespace@)
        } else {
            APP_ID@
        },
{
    if namespace_valid {
        return namespace.to_string();
    }
    if candidate_valid {
        app_id_candidate(namespace)
    } else {
        APP_ID.to_string()
    }
}

} // verus!
