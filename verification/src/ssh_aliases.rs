//! Host aliases offered for one-click connect: the `Host` names of the user's
//! OpenSSH configuration, following `Include` directives, each file read once
//! and each alias listed once, in the order OpenSSH would meet them.
use vstd::prelude::*;
use crate::ssh_config::{
    concrete_alias, directive, directive_ranges, is_concrete_host_alias, split_ssh_words,
    ssh_words,
};
use crate::text::{
    chars_eq, chars_eq_str, chars_of, lines, lower, lower_chars, owned, path_join, push_path,
    split_lines, starts_with, string_from_chars, sub_chars,
};

verus! {

// ── Paths ─────────────────────────────────────────────────────────────

/// What `Path::parent` gives for a path held as text.
pub uninterp spec fn parent_path(p: Seq<char>) -> Option<Seq<char>>;

/// `Path::new(p).parent()`, as text; named `parent_path` of the path.
#[verifier::external_body]
fn path_parent(p: &str) -> (r: Option<String>)
    ensures
        match r {
            Some(q) => parent_path(p@) == Some(q@),
            None => parent_path(p@) is None,
        },
{
    match std::path::Path::new(p).parent() {
        Some(q) => Some(q.to_string_lossy().into_owned()),
        None => None,
    }
}

/// The directory above `dir`, or `dir` itself at the top.
pub open spec fn parent_or_self(dir: Seq<char>) -> Seq<char> {
    match parent_path(dir) {
        Some(p) => p,
        None => dir,
    }
}

/// Where an `Include` argument points: `~` is the home directory (the parent
/// of the `.ssh` directory), `~/x` is below it, an absolute path stays, and
/// anything else is relative to the `.ssh` directory.
pub open spec fn expanded_path(value: Seq<char>, ssh_dir: Seq<char>) -> Seq<char> {
    if value == "~"@ {
        parent_or_self(ssh_dir)
    } else if starts_with(value, "~/"@) {
        path_join(parent_or_self(ssh_dir), value.skip(2))
    } else if value.len() > 0 && value[0] == '/' {
        value
    } else {
        path_join(ssh_dir, value)
    }
}

/// Expands an `Include` argument against the `.ssh` directory.
pub fn expand_home_path(value: &str, ssh_dir: &str) -> (r: String)
    ensures
        r@ == expanded_path(value@, ssh_dir@),
{
    proof {
        reveal_strlit("~/");
        reveal_strlit("~");
    }
    let v = chars_of(value);
    proof {
        let t = "~/"@;
        assert(t.len() == 2 && t[0] == '~' && t[1] == '/');
        if v@.len() >= 2 && v@[0] == '~' && v@[1] == '/' {
            assert(value@.take(2) =~= t);
        }
        if starts_with(value@, t) {
            assert(value@.take(2)[0] == '~');
            assert(value@.take(2)[1] == '/');
        }
    }
    if chars_eq_str(v.as_slice(), "~") {
        return match path_parent(ssh_dir) {
            Some(p) => p,
            None => owned(ssh_dir),
        };
    }
    if v.len() >= 2 && v[0] == '~' && v[1] == '/' {
        let mut base = match path_parent(ssh_dir) {
            Some(p) => p,
            None => owned(ssh_dir),
        };
        let rest = string_from_chars(sub_chars(v.as_slice(), 2, v.len()).as_slice());
        proof {
            assert(rest@ =~= value@.skip(2));
        }
        push_path(&mut base, rest.as_str());
        return base;
    }
    if v.len() > 0 && v[0] == '/' {
        return owned(value);
    }
    let mut base = owned(ssh_dir);
    push_path(&mut base, value);
    base
}

/// The `.ssh` directory of a configuration file: its parent, `.` when it has none.
pub open spec fn config_dir(config_path: Seq<char>) -> Seq<char> {
    match parent_path(config_path) {
        Some(p) => p,
        None => "."@,
    }
}

// ── What one file asks for ────────────────────────────────────────────

/// One thing a configuration file contributes, in file order.
pub enum WalkOp {
    /// A concrete `Host` alias.
    Alias(String),
    /// An expanded `Include` pattern.
    Pattern(String),
    /// A file matched by a pattern.
    File(String),
}

pub enum OpView {
    Alias(Seq<char>),
    Pattern(Seq<char>),
    File(Seq<char>),
}

impl View for WalkOp {
    type V = OpView;

    open spec fn view(&self) -> OpView {
        match self {
            WalkOp::Alias(s) => OpView::Alias(s@),
            WalkOp::Pattern(s) => OpView::Pattern(s@),
            WalkOp::File(s) => OpView::File(s@),
        }
    }
}

pub open spec fn ops_view(ops: Seq<WalkOp>) -> Seq<OpView> {
    ops.map_values(|o: WalkOp| o@)
}

/// The concrete aliases among `Host` words.
pub open spec fn alias_ops(words: Seq<Seq<char>>) -> Seq<OpView>
    decreases words.len(),
{
    if words.len() == 0 {
        seq![]
    } else {
        let r = alias_ops(words.drop_last());
        if concrete_alias(words.last()) {
            r.push(OpView::Alias(words.last()))
        } else {
            r
        }
    }
}

/// The expanded patterns of `Include` words.
pub open spec fn pattern_ops(words: Seq<Seq<char>>, ssh_dir: Seq<char>) -> Seq<OpView>
    decreases words.len(),
{
    if words.len() == 0 {
        seq![]
    } else {
        pattern_ops(words.drop_last(), ssh_dir).push(
            OpView::Pattern(expanded_path(words.last(), ssh_dir)),
        )
    }
}

/// What one line contributes: the aliases of a `Host` line, the patterns
/// of an `Include` line (keys in any case), nothing otherwise.
pub open spec fn line_ops(line: Seq<char>, ssh_dir: Seq<char>) -> Seq<OpView> {
    match directive(line) {
        Some((key, value)) => if lower(key) == "host"@ {
            alias_ops(ssh_words(value))
        } else if lower(key) == "include"@ {
            pattern_ops(ssh_words(value), ssh_dir)
        } else {
            seq![]
        },
        None => seq![],
    }
}

/// What the lines of a file contribute, in order.
pub open spec fn lines_ops(ls: Seq<Seq<char>>, ssh_dir: Seq<char>) -> Seq<OpView>
    decreases ls.len(),
{
    if ls.len() == 0 {
        seq![]
    } else {
        lines_ops(ls.drop_last(), ssh_dir) + line_ops(ls.last(), ssh_dir)
    }
}

/// What a configuration file's text contributes.
pub open spec fn file_ops(content: Seq<char>, ssh_dir: Seq<char>) -> Seq<OpView> {
    lines_ops(lines(content), ssh_dir)
}

fn push_line_ops(out: &mut Vec<WalkOp>, line: &[char], ssh_dir: &str)
    ensures
        ops_view(final(out)@) == ops_view(old(out)@) + line_ops(line@, ssh_dir@),
{
    let ghost start = ops_view(out@);
    match directive_ranges(line) {
        None => {
            assert(ops_view(out@) =~= start + line_ops(line@, ssh_dir@));
        },
        Some((ka, kb, va, vb)) => {
            let key = lower_chars(sub_chars(line, ka, kb).as_slice());
            let value = string_from_chars(sub_chars(line, va, vb).as_slice());
            let ghost d = directive(line@).unwrap();
            assert(key@ == lower(d.0));
            assert(value@ == d.1);
            let is_host = chars_eq_str(key.as_slice(), "host");
            let is_include = chars_eq_str(key.as_slice(), "include");
            if !is_host && !is_include {
                assert(ops_view(out@) =~= start + line_ops(line@, ssh_dir@));
                return;
            }
            let words = split_ssh_words(value.as_str());
            let ghost ws = ssh_words(value@);
            let mut i: usize = 0;
            assert(ws.take(0) =~= Seq::<Seq<char>>::empty());
            while i < words.len()
                invariant
                    i <= words@.len(),
                    words@.len() == ws.len(),
                    forall|k: int| 0 <= k < words@.len() ==> #[trigger] words@[k]@ == ws[k],
                    is_host || is_include,
                    ops_view(out@) == start + if is_host {
                        alias_ops(ws.take(i as int))
                    } else {
                        pattern_ops(ws.take(i as int), ssh_dir@)
                    },
                decreases words.len() - i,
            {
                assert(ws.take(i + 1).drop_last() =~= ws.take(i as int));
                assert(ws.take(i + 1).last() == ws[i as int]);
                let w = words[i].as_str();
                let ghost before = out@;
                if is_host {
                    if is_concrete_host_alias(w) {
                        let op = WalkOp::Alias(owned(w));
                        let ghost opv = op@;
                        out.push(op);
                        assert(ops_view(out@) =~= ops_view(before).push(opv));
                        assert(ops_view(out@) =~= start + alias_ops(ws.take(i + 1)));
                    }
                } else {
                    let op = WalkOp::Pattern(expand_home_path(w, ssh_dir));
                    let ghost opv = op@;
                    out.push(op);
                    assert(ops_view(out@) =~= ops_view(before).push(opv));
                    assert(ops_view(out@) =~= start + pattern_ops(ws.take(i + 1), ssh_dir@));
                }
                i = i + 1;
            }
            assert(ws.take(ws.len() as int) =~= ws);
        },
    }
}

/// The aliases and expanded patterns of a configuration file's text, in order.
pub fn config_ops(content: &str, ssh_dir: &str) -> (r: Vec<WalkOp>)
    ensures
        ops_view(r@) == file_ops(content@, ssh_dir@),
{
    let v = chars_of(content);
    let ls = split_lines(v.as_slice());
    let ghost lv = lines(content@);
    let mut out: Vec<WalkOp> = Vec::new();
    let mut i: usize = 0;
    assert(lv.take(0) =~= Seq::<Seq<char>>::empty());
    assert(ops_view(out@) =~= Seq::<OpView>::empty());
    while i < ls.len()
        invariant
            i <= ls@.len(),
            ls@.len() == lv.len(),
            forall|k: int| 0 <= k < ls@.len() ==> #[trigger] ls@[k]@ == lv[k],
            ops_view(out@) == lines_ops(lv.take(i as int), ssh_dir@),
        decreases ls.len() - i,
    {
        assert(lv.take(i + 1).drop_last() =~= lv.take(i as int));
        assert(lv.take(i + 1).last() == lv[i as int]);
        push_line_ops(&mut out, ls[i].as_slice(), ssh_dir);
        i = i + 1;
    }
    assert(lv.take(lv.len() as int) =~= lv);
    out
}

// ── The walk over included files ──────────────────────────────────────

/// Where the walk stopped: at a file to open, at a pattern to expand, or at the end.
pub enum Pause {
    Open(Seq<char>),
    Glob(Seq<char>),
    Done,
}

pub open spec fn frame_measure(fr: (Seq<OpView>, nat)) -> nat {
    if fr.1 <= fr.0.len() {
        (fr.0.len() - fr.1) as nat
    } else {
        0
    }
}

pub open spec fn stack_measure(st: Seq<(Seq<OpView>, nat)>) -> nat
    decreases st.len(),
{
    if st.len() == 0 {
        0
    } else {
        stack_measure(st.drop_last()) + frame_measure(st.last()) + 1
    }
}

/// `aliases` with `a` appended unless it is already there.
pub open spec fn record_alias(aliases: Seq<Seq<char>>, a: Seq<char>) -> Seq<Seq<char>> {
    if aliases.contains(a) {
        aliases
    } else {
        aliases.push(a)
    }
}

/// Works through the innermost open file (the top of `st`): aliases are
/// recorded, a finished file is closed, and the walk stops at the next
/// pattern or included file.
pub open spec fn advance(st: Seq<(Seq<OpView>, nat)>, aliases: Seq<Seq<char>>) -> (Seq<(Seq<OpView>, nat)>, Seq<Seq<char>>, Pause)
    decreases stack_measure(st),
{
    if st.len() == 0 {
        (st, aliases, Pause::Done)
    } else {
        let top = st.last();
        if top.1 >= top.0.len() {
            advance(st.drop_last(), aliases)
        } else {
            let st2 = st.update(st.len() - 1, (top.0, (top.1 + 1) as nat));
            proof {
                assert(st2.drop_last() =~= st.drop_last());
            }
            match top.0[top.1 as int] {
                OpView::Alias(a) => advance(st2, record_alias(aliases, a)),
                OpView::Pattern(p) => (st2, aliases, Pause::Glob(p)),
                OpView::File(f) => (st2, aliases, Pause::Open(f)),
            }
        }
    }
}

pub enum AwaitView {
    Canonical(Seq<char>),
    Content(Seq<char>),
    Matches,
    Nothing,
}

/// The state of a walk: the `.ssh` directory, the files already read (by
/// canonical path), the aliases found, the open files with their positions,
/// what the walk waits for, and whether the file being opened is the root.
pub struct WalkView {
    pub ssh_dir: Seq<char>,
    pub visited: Seq<Seq<char>>,
    pub aliases: Seq<Seq<char>>,
    pub stack: Seq<(Seq<OpView>, nat)>,
    pub awaiting: AwaitView,
    pub root: bool,
}

pub enum StepView {
    Canonicalize(Seq<char>),
    Read(Seq<char>),
    Glob(Seq<char>),
    Finished(Result<Seq<Seq<char>>, Seq<char>>),
}

pub enum EventView {
    Canonical(Seq<char>),
    Text(Seq<char>),
    NotFound,
    Failed(Seq<char>),
    Matched(Option<Seq<Seq<char>>>),
}

pub open spec fn paused(v: WalkView, st: Seq<(Seq<OpView>, nat)>, al: Seq<Seq<char>>, p: Pause) -> (WalkView, StepView) {
    match p {
        Pause::Open(f) => (
            WalkView { stack: st, aliases: al, awaiting: AwaitView::Canonical(f), root: st.len() == 1, ..v },
            StepView::Canonicalize(f),
        ),
        Pause::Glob(g) => (
            WalkView { stack: st, aliases: al, awaiting: AwaitView::Matches, ..v },
            StepView::Glob(g),
        ),
        Pause::Done => (
            WalkView { stack: st, aliases: al, awaiting: AwaitView::Nothing, ..v },
            StepView::Finished(Ok(al)),
        ),
    }
}

/// Continues the walk until it needs the outside world again.
pub open spec fn proceed(v: WalkView) -> (WalkView, StepView) {
    let (st, al, p) = advance(v.stack, v.aliases);
    paused(v, st, al, p)
}

/// The walk over a configuration file, before anything is read.
pub open spec fn start_spec(config_path: Seq<char>) -> (WalkView, StepView) {
    proceed(
        WalkView {
            ssh_dir: config_dir(config_path),
            visited: seq![],
            aliases: seq![],
            stack: seq![(seq![OpView::File(config_path)], 0nat)],
            awaiting: AwaitView::Nothing,
            root: false,
        },
    )
}

/// The event answers what the walk waits for.
pub open spec fn accepts(v: WalkView, e: EventView) -> bool {
    match v.awaiting {
        AwaitView::Canonical(_) => e is Canonical,
        AwaitView::Content(_) => e is Text || e is NotFound || e is Failed,
        AwaitView::Matches => e is Matched,
        AwaitView::Nothing => false,
    }
}

/// One step of the walk: a file already read is skipped, a new one is read;
/// its text contributes its aliases and patterns; a missing file contributes
/// nothing; an unreadable file ends the walk with its error only when it is
/// the root, and is skipped otherwise; an invalid pattern matches nothing.
pub open spec fn resume_spec(v: WalkView, e: EventView) -> (WalkView, StepView) {
    match e {
        EventView::Canonical(c) => {
            let f = match v.awaiting {
                AwaitView::Canonical(f) => f,
                _ => seq![],
            };
            if v.visited.contains(c) {
                proceed(v)
            } else {
                (
                    WalkView { visited: v.visited.push(c), awaiting: AwaitView::Content(f), ..v },
                    StepView::Read(f),
                )
            }
        },
        EventView::Text(t) => proceed(
            WalkView { stack: v.stack.push((file_ops(t, v.ssh_dir), 0nat)), ..v },
        ),
        EventView::NotFound => proceed(v),
        EventView::Failed(m) => if v.root {
            (
                WalkView { stack: seq![], awaiting: AwaitView::Nothing, ..v },
                StepView::Finished(Err(m)),
            )
        } else {
            proceed(v)
        },
        EventView::Matched(None) => proceed(v),
        EventView::Matched(Some(ps)) => proceed(
            WalkView {
                stack: v.stack.push((ps.map_values(|p: Seq<char>| OpView::File(p)), 0nat)),
                ..v
            },
        ),
    }
}

/// One open file: what it contributes and how far the walk got.
struct Frame {
    ops: Vec<WalkOp>,
    next: usize,
}

spec fn frame_view(f: Frame) -> (Seq<OpView>, nat) {
    (ops_view(f.ops@), f.next as nat)
}

spec fn stack_view(st: Seq<Frame>) -> Seq<(Seq<OpView>, nat)> {
    st.map_values(|f: Frame| frame_view(f))
}

pub open spec fn strings_view(v: Seq<String>) -> Seq<Seq<char>> {
    v.map_values(|s: String| s@)
}

enum Awaiting {
    Canonical(String),
    Content(String),
    Matches,
    Nothing,
}

/// A walk over an OpenSSH configuration and the files it includes.
pub struct AliasWalk {
    ssh_dir: String,
    visited: Vec<String>,
    aliases: Vec<String>,
    stack: Vec<Frame>,
    awaiting: Awaiting,
    root: bool,
}

impl View for AliasWalk {
    type V = WalkView;

    closed spec fn view(&self) -> WalkView {
        WalkView {
            ssh_dir: self.ssh_dir@,
            visited: strings_view(self.visited@),
            aliases: strings_view(self.aliases@),
            stack: stack_view(self.stack@),
            awaiting: match self.awaiting {
                Awaiting::Canonical(f) => AwaitView::Canonical(f@),
                Awaiting::Content(f) => AwaitView::Content(f@),
                Awaiting::Matches => AwaitView::Matches,
                Awaiting::Nothing => AwaitView::Nothing,
            },
            root: self.root,
        }
    }
}

/// What the walk needs next.
pub enum WalkStep {
    /// Resolve this path (the path itself when it cannot be resolved).
    Canonicalize(String),
    /// Read this file.
    Read(String),
    /// List the files matching this pattern.
    Glob(String),
    /// The aliases found, or the error reading the root file.
    Finished(Result<Vec<String>, String>),
}

impl View for WalkStep {
    type V = StepView;

    open spec fn view(&self) -> StepView {
        match self {
            WalkStep::Canonicalize(p) => StepView::Canonicalize(p@),
            WalkStep::Read(p) => StepView::Read(p@),
            WalkStep::Glob(p) => StepView::Glob(p@),
            WalkStep::Finished(Ok(v)) => StepView::Finished(Ok(strings_view(v@))),
            WalkStep::Finished(Err(e)) => StepView::Finished(Err(e@)),
        }
    }
}

/// How reading a file went.
pub enum ReadOutcome {
    Text(String),
    NotFound,
    Failed(String),
}

/// What the outside world answered.
pub enum WalkEvent {
    Canonical(String),
    Loaded(ReadOutcome),
    /// The matches of a pattern, none when the pattern is invalid.
    Matched(Option<Vec<String>>),
}

impl View for WalkEvent {
    type V = EventView;

    open spec fn view(&self) -> EventView {
        match self {
            WalkEvent::Canonical(c) => EventView::Canonical(c@),
            WalkEvent::Loaded(ReadOutcome::Text(t)) => EventView::Text(t@),
            WalkEvent::Loaded(ReadOutcome::NotFound) => EventView::NotFound,
            WalkEvent::Loaded(ReadOutcome::Failed(m)) => EventView::Failed(m@),
            WalkEvent::Matched(None) => EventView::Matched(None),
            WalkEvent::Matched(Some(ps)) => EventView::Matched(Some(strings_view(ps@))),
        }
    }
}

proof fn lemma_measure_step(sv: Seq<(Seq<OpView>, nat)>)
    requires
        sv.len() > 0,
        sv.last().1 < sv.last().0.len(),
    ensures
        stack_measure(sv.update(sv.len() - 1, (sv.last().0, (sv.last().1 + 1) as nat)))
            < stack_measure(sv),
{
    let st2 = sv.update(sv.len() - 1, (sv.last().0, (sv.last().1 + 1) as nat));
    assert(st2.drop_last() =~= sv.drop_last());
    assert(st2.last() == (sv.last().0, (sv.last().1 + 1) as nat));
}

fn clone_string(s: &String) -> (r: String)
    ensures
        r@ == s@,
{
    owned(s.as_str())
}

fn clone_strings(v: &Vec<String>) -> (r: Vec<String>)
    ensures
        strings_view(r@) == strings_view(v@),
{
    let mut r: Vec<String> = Vec::new();
    let mut i: usize = 0;
    while i < v.len()
        invariant
            i <= v@.len(),
            strings_view(r@) == strings_view(v@.take(i as int)),
        decreases v.len() - i,
    {
        let ghost before = r@;
        r.push(clone_string(&v[i]));
        assert(strings_view(r@) =~= strings_view(before).push(v@[i as int]@));
        assert(v@.take(i + 1) =~= v@.take(i as int).push(v@[i as int]));
        assert(strings_view(r@) =~= strings_view(v@.take(i + 1)));
        i = i + 1;
    }
    assert(v@.take(v@.len() as int) =~= v@);
    r
}

fn contains_string(v: &Vec<String>, s: &str) -> (r: bool)
    ensures
        r == strings_view(v@).contains(s@),
{
    let t = chars_of(s);
    let mut i: usize = 0;
    while i < v.len()
        invariant
            i <= v@.len(),
            t@ == s@,
            forall|j: int| 0 <= j < i ==> (#[trigger] v@[j])@ != s@,
        decreases v.len() - i,
    {
        let c = chars_of(v[i].as_str());
        if chars_eq(c.as_slice(), t.as_slice()) {
            assert(strings_view(v@)[i as int] == s@);
            return true;
        }
        i = i + 1;
    }
    proof {
        if strings_view(v@).contains(s@) {
            let j = choose|j: int| 0 <= j < strings_view(v@).len() && strings_view(v@)[j] == s@;
            assert(v@[j]@ == s@);
        }
    }
    false
}

impl AliasWalk {
    /// Runs the walk until it needs the outside world.
    fn proceed_exec(&mut self) -> (r: WalkStep)
        ensures
            (final(self)@, r@) == proceed(old(self)@),
    {
        let ghost goal = advance(self@.stack, self@.aliases);
        loop
            invariant
                advance(stack_view(self.stack@), strings_view(self.aliases@)) == goal,
                self.ssh_dir == old(self).ssh_dir,
                self.visited == old(self).visited,
                self.awaiting == old(self).awaiting,
                self.root == old(self).root,
                goal == advance(old(self)@.stack, old(self)@.aliases),
            decreases stack_measure(stack_view(self.stack@)),
        {
            let ghost sv = stack_view(self.stack@);
            if self.stack.len() == 0 {
                self.awaiting = Awaiting::Nothing;
                let found = clone_strings(&self.aliases);
                assert(self@.aliases == goal.1);
                return WalkStep::Finished(Ok(found));
            }
            let mut top = self.stack.pop().unwrap();
            proof {
                assert(stack_view(self.stack@) =~= sv.drop_last());
                assert(frame_view(top) == sv.last());
            }
            if top.next >= top.ops.len() {
                assert(stack_measure(stack_view(self.stack@)) < stack_measure(sv));
                continue;
            }
            proof {
                lemma_measure_step(sv);
            }
            let n = top.next;
            top.next = n + 1;
            let ghost opv = top.ops@[n as int]@;
            proof {
                assert(ops_view(top.ops@)[n as int] == opv);
            }
            match &top.ops[n] {
                WalkOp::Alias(a) => {
                    let a2 = clone_string(a);
                    let ghost before = strings_view(self.aliases@);
                    self.stack.push(top);
                    proof {
                        assert(stack_view(self.stack@) =~= sv.update(
                            sv.len() - 1,
                            (sv.last().0, (sv.last().1 + 1) as nat),
                        ));
                    }
                    if !contains_string(&self.aliases, a2.as_str()) {
                        self.aliases.push(a2);
                        assert(strings_view(self.aliases@) =~= before.push(a2@));
                    }
                    assert(strings_view(self.aliases@) == record_alias(before, opv->Alias_0));
                },
                WalkOp::Pattern(p) => {
                    let p2 = clone_string(p);
                    self.stack.push(top);
                    proof {
                        assert(stack_view(self.stack@) =~= sv.update(
                            sv.len() - 1,
                            (sv.last().0, (sv.last().1 + 1) as nat),
                        ));
                    }
                    self.awaiting = Awaiting::Matches;
                    return WalkStep::Glob(p2);
                },
                WalkOp::File(f) => {
                    let f2 = clone_string(f);
                    let f3 = clone_string(f);
                    self.stack.push(top);
                    proof {
                        assert(stack_view(self.stack@) =~= sv.update(
                            sv.len() - 1,
                            (sv.last().0, (sv.last().1 + 1) as nat),
                        ));
                    }
                    self.root = self.stack.len() == 1;
                    self.awaiting = Awaiting::Canonical(f2);
                    return WalkStep::Canonicalize(f3);
                },
            }
        }
    }
}

fn file_ops_from(paths: Vec<String>) -> (r: Vec<WalkOp>)
    ensures
        ops_view(r@) == strings_view(paths@).map_values(|p: Seq<char>| OpView::File(p)),
{
    let mut r: Vec<WalkOp> = Vec::new();
    let mut rest = paths;
    let ghost all = strings_view(rest@);
    let ghost n = rest@.len();
    let mut i: usize = 0;
    while i < rest.len()
        invariant
            i <= rest@.len(),
            rest@.len() == n,
            strings_view(rest@) == all,
            ops_view(r@) == all.take(i as int).map_values(|p: Seq<char>| OpView::File(p)),
        decreases rest.len() - i,
    {
        let ghost before = r@;
        let p = clone_string(&rest[i]);
        assert(p@ == all[i as int]);
        r.push(WalkOp::File(p));
        assert(ops_view(r@) =~= ops_view(before).push(OpView::File(all[i as int])));
        assert(all.take(i + 1) =~= all.take(i as int).push(all[i as int]));
        assert(ops_view(r@) =~= all.take(i + 1).map_values(|p: Seq<char>| OpView::File(p)));
        i = i + 1;
    }
    assert(all.take(n as int) =~= all);
    r
}

/// Starts collecting the host aliases of the OpenSSH configuration at
/// `config_path`; the walk then asks for what it needs step by step.
pub fn collect_ssh_aliases(config_path: &str) -> (r: (AliasWalk, WalkStep))
    ensures
        (r.0@, r.1@) == start_spec(config_path@),
{
    let ssh_dir = match path_parent(config_path) {
        Some(p) => p,
        None => owned("."),
    };
    let mut ops: Vec<WalkOp> = Vec::new();
    ops.push(WalkOp::File(owned(config_path)));
    let mut stack: Vec<Frame> = Vec::new();
    stack.push(Frame { ops, next: 0 });
    let mut walk = AliasWalk {
        ssh_dir,
        visited: Vec::new(),
        aliases: Vec::new(),
        stack,
        awaiting: Awaiting::Nothing,
        root: false,
    };
    proof {
        assert(walk@.visited =~= Seq::<Seq<char>>::empty());
        assert(walk@.aliases =~= Seq::<Seq<char>>::empty());
        assert(ops_view(walk.stack@[0].ops@) =~= seq![OpView::File(config_path@)]);
        assert(walk@.stack =~= seq![(seq![OpView::File(config_path@)], 0nat)]);
    }
    let step = walk.proceed_exec();
    (walk, step)
}

impl AliasWalk {
    /// Feeds the walk the answer to what it asked for and returns its next request.
    pub fn resume(&mut self, event: WalkEvent) -> (r: WalkStep)
        requires
            accepts(old(self)@, event@),
        ensures
            (final(self)@, r@) == resume_spec(old(self)@, event@),
    {
        match event {
            WalkEvent::Canonical(c) => {
                let f = match &self.awaiting {
                    Awaiting::Canonical(f) => clone_string(f),
                    _ => String::new(),
                };
                if contains_string(&self.visited, c.as_str()) {
                    return self.proceed_exec();
                }
                let ghost before = self.visited@;
                self.visited.push(c);
                assert(strings_view(self.visited@) =~= strings_view(before).push(event@->Canonical_0));
                let f2 = clone_string(&f);
                self.awaiting = Awaiting::Content(f);
                WalkStep::Read(f2)
            },
            WalkEvent::Loaded(ReadOutcome::Text(t)) => {
                let ops = config_ops(t.as_str(), self.ssh_dir.as_str());
                let ghost before = self.stack@;
                self.stack.push(Frame { ops, next: 0 });
                assert(stack_view(self.stack@) =~= stack_view(before).push(
                    (file_ops(t@, self.ssh_dir@), 0nat),
                ));
                self.proceed_exec()
            },
            WalkEvent::Loaded(ReadOutcome::NotFound) => self.proceed_exec(),
            WalkEvent::Loaded(ReadOutcome::Failed(m)) => {
                if self.root {
                    self.stack = Vec::new();
                    self.awaiting = Awaiting::Nothing;
                    assert(stack_view(self.stack@) =~= Seq::<(Seq<OpView>, nat)>::empty());
                    WalkStep::Finished(Err(m))
                } else {
                    self.proceed_exec()
                }
            },
            WalkEvent::Matched(None) => self.proceed_exec(),
            WalkEvent::Matched(Some(paths)) => {
                let ghost ps = strings_view(paths@);
                let ops = file_ops_from(paths);
                let ghost before = self.stack@;
                self.stack.push(Frame { ops, next: 0 });
                assert(stack_view(self.stack@) =~= stack_view(before).push(
                    (ps.map_values(|p: Seq<char>| OpView::File(p)), 0nat),
                ));
                self.proceed_exec()
            },
        }
    }
}

// ── What every walk keeps ─────────────────────────────────────────────

pub open spec fn distinct(s: Seq<Seq<char>>) -> bool {
    forall|i: int, j: int| 0 <= i < j < s.len() ==> s[i] != s[j]
}

pub open spec fn all_concrete(s: Seq<Seq<char>>) -> bool {
    forall|i: int| 0 <= i < s.len() ==> concrete_alias(#[trigger] s[i])
}

pub open spec fn ops_concrete(ops: Seq<OpView>) -> bool {
    forall|i: int| 0 <= i < ops.len() ==> (#[trigger] ops[i] matches OpView::Alias(a) ==> concrete_alias(a))
}

pub open spec fn stack_concrete(st: Seq<(Seq<OpView>, nat)>) -> bool {
    forall|k: int| 0 <= k < st.len() ==> ops_concrete(#[trigger] st[k].0)
}

/// The aliases found are distinct concrete names, no file is read twice,
/// and the files still open only contribute concrete aliases.
pub open spec fn walk_ok(v: WalkView) -> bool {
    &&& distinct(v.aliases)
    &&& all_concrete(v.aliases)
    &&& distinct(v.visited)
    &&& stack_concrete(v.stack)
}

proof fn lemma_record_alias(al: Seq<Seq<char>>, a: Seq<char>)
    requires
        distinct(al),
        all_concrete(al),
        concrete_alias(a),
    ensures
        distinct(record_alias(al, a)),
        all_concrete(record_alias(al, a)),
        al.is_prefix_of(record_alias(al, a)),
        record_alias(al, a).contains(a),
{
    if !al.contains(a) {
        let r = al.push(a);
        assert forall|i: int, j: int| 0 <= i < j < r.len() implies r[i] != r[j] by {
            if j == al.len() {
                assert(r[i] == al[i]);
            }
        }
        assert(r[al.len() as int] == a);
    } else {
        let i = choose|i: int| 0 <= i < al.len() && al[i] == a;
    }
    assert(al.is_prefix_of(record_alias(al, a)));
}

proof fn lemma_advance_ok(st: Seq<(Seq<OpView>, nat)>, al: Seq<Seq<char>>)
    requires
        distinct(al),
        all_concrete(al),
        stack_concrete(st),
    ensures
        ({
            let (st2, al2, _) = advance(st, al);
            &&& distinct(al2)
            &&& all_concrete(al2)
            &&& stack_concrete(st2)
            &&& al.is_prefix_of(al2)
        }),
    decreases stack_measure(st),
{
    if st.len() > 0 {
        let top = st.last();
        assert(ops_concrete(st[st.len() - 1].0));
        if top.1 >= top.0.len() {
            assert(stack_concrete(st.drop_last())) by {
                assert forall|k: int| 0 <= k < st.drop_last().len() implies ops_concrete(
                    #[trigger] st.drop_last()[k].0,
                ) by {
                    assert(st.drop_last()[k] == st[k]);
                }
            }
            lemma_advance_ok(st.drop_last(), al);
        } else {
            let st2 = st.update(st.len() - 1, (top.0, (top.1 + 1) as nat));
            assert(stack_concrete(st2)) by {
                assert forall|k: int| 0 <= k < st2.len() implies ops_concrete(#[trigger] st2[k].0) by {
                    if k < st.len() - 1 {
                        assert(st2[k] == st[k]);
                    }
                }
            }
            lemma_measure_step(st);
            match top.0[top.1 as int] {
                OpView::Alias(a) => {
                    assert(concrete_alias(a));
                    lemma_record_alias(al, a);
                    lemma_advance_ok(st2, record_alias(al, a));
                    let al3 = advance(st2, record_alias(al, a)).1;
                    assert(al.is_prefix_of(al3)) by {
                        assert forall|i: int| 0 <= i < al.len() implies al[i] == al3[i] by {
                            assert(record_alias(al, a)[i] == al[i]);
                        }
                    }
                },
                _ => {
                    assert(al.is_prefix_of(al));
                },
            }
        }
    } else {
        assert(al.is_prefix_of(al));
    }
}

proof fn lemma_alias_ops_concrete(words: Seq<Seq<char>>)
    ensures
        ops_concrete(alias_ops(words)),
    decreases words.len(),
{
    if words.len() > 0 {
        lemma_alias_ops_concrete(words.drop_last());
        let r = alias_ops(words.drop_last());
        if concrete_alias(words.last()) {
            assert forall|i: int| 0 <= i < r.push(OpView::Alias(words.last())).len() implies (
            #[trigger] r.push(OpView::Alias(words.last()))[i] matches OpView::Alias(a)
                ==> concrete_alias(a)) by {
                if i < r.len() {
                    assert(r.push(OpView::Alias(words.last()))[i] == r[i]);
                }
            }
        }
    }
}

proof fn lemma_pattern_ops_concrete(words: Seq<Seq<char>>, dir: Seq<char>)
    ensures
        ops_concrete(pattern_ops(words, dir)),
    decreases words.len(),
{
    if words.len() > 0 {
        lemma_pattern_ops_concrete(words.drop_last(), dir);
        let r = pattern_ops(words.drop_last(), dir);
        let x = OpView::Pattern(expanded_path(words.last(), dir));
        assert forall|i: int| 0 <= i < r.push(x).len() implies (#[trigger] r.push(x)[i] matches OpView::Alias(a)
            ==> concrete_alias(a)) by {
            if i < r.len() {
                assert(r.push(x)[i] == r[i]);
            }
        }
    }
}

proof fn lemma_lines_ops_concrete(ls: Seq<Seq<char>>, dir: Seq<char>)
    ensures
        ops_concrete(lines_ops(ls, dir)),
    decreases ls.len(),
{
    if ls.len() > 0 {
        lemma_lines_ops_concrete(ls.drop_last(), dir);
        let line = ls.last();
        match directive(line) {
            Some((key, value)) => {
                lemma_alias_ops_concrete(ssh_words(value));
                lemma_pattern_ops_concrete(ssh_words(value), dir);
            },
            None => {},
        }
        let a = lines_ops(ls.drop_last(), dir);
        let b = line_ops(line, dir);
        assert forall|i: int| 0 <= i < (a + b).len() implies (#[trigger] (a + b)[i] matches OpView::Alias(x)
            ==> concrete_alias(x)) by {
            if i < a.len() {
                assert((a + b)[i] == a[i]);
            } else {
                assert((a + b)[i] == b[i - a.len()]);
            }
        }
    }
}

proof fn lemma_push_frame(st: Seq<(Seq<OpView>, nat)>, fr: (Seq<OpView>, nat))
    requires
        stack_concrete(st),
        ops_concrete(fr.0),
    ensures
        stack_concrete(st.push(fr)),
{
    assert forall|k: int| 0 <= k < st.push(fr).len() implies ops_concrete(#[trigger] st.push(fr)[k].0) by {
        if k < st.len() {
            assert(st.push(fr)[k] == st[k]);
        }
    }
}

/// A walk starts with nothing found and nothing read.
pub proof fn law_walk_starts_clean(config_path: Seq<char>)
    ensures
        walk_ok(start_spec(config_path).0),
        start_spec(config_path).0.visited.len() == 0,
{
    let st: Seq<(Seq<OpView>, nat)> = seq![(seq![OpView::File(config_path)], 0nat)];
    assert(stack_concrete(st)) by {
        assert forall|k: int| 0 <= k < st.len() implies ops_concrete(#[trigger] st[k].0) by {
            let ops = st[k].0;
            assert forall|i: int| 0 <= i < ops.len() implies (#[trigger] ops[i] matches OpView::Alias(a)
                ==> concrete_alias(a)) by {
                assert(ops[i] == OpView::File(config_path));
            }
        }
    }
    let empty: Seq<Seq<char>> = seq![];
    lemma_advance_ok(st, empty);
}

/// Whatever files and matches the walk is given, every alias it reports is
/// a concrete `Host` name, no alias is reported twice, no file is read
/// twice, and aliases already found keep their place.
pub proof fn law_walk_keeps_aliases_distinct(v: WalkView, e: EventView)
    requires
        walk_ok(v),
        accepts(v, e),
    ensures
        walk_ok(resume_spec(v, e).0),
        v.aliases.is_prefix_of(resume_spec(v, e).0.aliases),
        resume_spec(v, e).1 matches StepView::Finished(Ok(found)) ==> found == resume_spec(v, e).0.aliases,
{
    match e {
        EventView::Canonical(c) => {
            if v.visited.contains(c) {
                lemma_advance_ok(v.stack, v.aliases);
            } else {
                let vis = v.visited.push(c);
                assert forall|i: int, j: int| 0 <= i < j < vis.len() implies vis[i] != vis[j] by {
                    if j == v.visited.len() {
                        assert(vis[i] == v.visited[i]);
                    }
                }
                assert(v.aliases.is_prefix_of(v.aliases));
            }
        },
        EventView::Text(t) => {
            lemma_lines_ops_concrete(lines(t), v.ssh_dir);
            lemma_push_frame(v.stack, (file_ops(t, v.ssh_dir), 0nat));
            lemma_advance_ok(v.stack.push((file_ops(t, v.ssh_dir), 0nat)), v.aliases);
        },
        EventView::NotFound => {
            lemma_advance_ok(v.stack, v.aliases);
        },
        EventView::Failed(m) => {
            if v.root {
                assert(v.aliases.is_prefix_of(v.aliases));
            } else {
                lemma_advance_ok(v.stack, v.aliases);
            }
        },
        EventView::Matched(None) => {
            lemma_advance_ok(v.stack, v.aliases);
        },
        EventView::Matched(Some(ps)) => {
            let ops = ps.map_values(|p: Seq<char>| OpView::File(p));
            assert forall|i: int| 0 <= i < ops.len() implies (#[trigger] ops[i] matches OpView::Alias(a)
                ==> concrete_alias(a)) by {
                assert(ops[i] == OpView::File(ps[i]));
            }
            lemma_push_frame(v.stack, (ops, 0nat));
            lemma_advance_ok(v.stack.push((ops, 0nat)), v.aliases);
        },
    }
}


/// The walk after it is given `events` in turn, from state `v` at step `s`;
/// none when an event does not answer what the walk waits for.
pub open spec fn run_walk(v: WalkView, s: StepView, events: Seq<EventView>) -> Option<(WalkView, StepView)>
    decreases events.len(),
{
    if events.len() == 0 {
        Some((v, s))
    } else if accepts(v, events[0]) {
        let r = resume_spec(v, events[0]);
        run_walk(r.0, r.1, events.drop_first())
    } else {
        None
    }
}

proof fn lemma_run_keeps_aliases(v: WalkView, s: StepView, events: Seq<EventView>)
    requires
        walk_ok(v),
        s matches StepView::Finished(Ok(found)) ==> found == v.aliases,
    ensures
        run_walk(v, s, events) matches Some((w, t)) ==> walk_ok(w) && (t matches StepView::Finished(
            Ok(found),
        ) ==> found == w.aliases),
    decreases events.len(),
{
    if events.len() > 0 && accepts(v, events[0]) {
        law_walk_keeps_aliases_distinct(v, events[0]);
        let r = resume_spec(v, events[0]);
        lemma_run_keeps_aliases(r.0, r.1, events.drop_first());
    }
}

/// However a whole walk over `config_path` goes (whatever the files hold,
/// and whichever included files are missing, unreadable or unmatched), when
/// it finishes with aliases, each is a concrete `Host` name and none is
/// reported twice.
pub proof fn law_whole_walk_reports_distinct_concrete_aliases(config_path: Seq<char>, events: Seq<EventView>)
    ensures
        run_walk(start_spec(config_path).0, start_spec(config_path).1, events) matches Some(
            (_, StepView::Finished(Ok(found))),
        ) ==> distinct(found) && all_concrete(found),
{
    law_walk_starts_clean(config_path);
    lemma_run_keeps_aliases(start_spec(config_path).0, start_spec(config_path).1, events);
}

/// A configuration file that does not exist gives no aliases and no error:
/// the walk asks for the file, learns it is missing, and finishes empty.
pub proof fn law_missing_config_gives_no_aliases(config_path: Seq<char>, canonical: Seq<char>)
    ensures
        start_spec(config_path).1 == StepView::Canonicalize(config_path),
        run_walk(
            start_spec(config_path).0,
            start_spec(config_path).1,
            seq![EventView::Canonical(canonical)],
        ) matches Some((_, step)) && step == StepView::Read(config_path),
        run_walk(
            start_spec(config_path).0,
            start_spec(config_path).1,
            seq![EventView::Canonical(canonical), EventView::NotFound],
        ) matches Some((_, step)) && step == StepView::Finished(Ok(Seq::<Seq<char>>::empty())),
{
    let st0: Seq<(Seq<OpView>, nat)> = seq![(seq![OpView::File(config_path)], 0nat)];
    let st1: Seq<(Seq<OpView>, nat)> = st0.update(0, (seq![OpView::File(config_path)], 1nat));
    let none: Seq<Seq<char>> = seq![];
    assert(st1.drop_last() =~= Seq::<(Seq<OpView>, nat)>::empty());
    assert(advance(st0, none) == (st1, none, Pause::Open(config_path)));
    assert(advance(st1.drop_last(), none) == (st1.drop_last(), none, Pause::Done));
    assert(advance(st1, none) == (st1.drop_last(), none, Pause::Done));
    let v0 = start_spec(config_path).0;
    let r1 = resume_spec(v0, EventView::Canonical(canonical));
    assert(!v0.visited.contains(canonical));
    let r2 = resume_spec(r1.0, EventView::NotFound);
    assert(r1.0.stack == st1);
    assert(r2.1 == StepView::Finished(Ok(none)));
    let e1: Seq<EventView> = seq![EventView::Canonical(canonical)];
    let e2: Seq<EventView> = seq![EventView::Canonical(canonical), EventView::NotFound];
    assert(e1.drop_first() =~= Seq::<EventView>::empty());
    assert(e2.drop_first() =~= seq![EventView::NotFound]);
    assert(e2.drop_first().drop_first() =~= Seq::<EventView>::empty());
    let s0 = start_spec(config_path).1;
    assert(accepts(v0, EventView::Canonical(canonical)));
    assert(run_walk(r1.0, r1.1, e1.drop_first()) == Some(r1));
    assert(run_walk(v0, s0, e1) == Some(r1));
    assert(accepts(r1.0, EventView::NotFound));
    assert(e2.drop_first()[0] == EventView::NotFound);
    assert(run_walk(r2.0, r2.1, e2.drop_first().drop_first()) == Some(r2));
    assert(run_walk(r1.0, r1.1, e2.drop_first()) == Some(r2));
    assert(e2[0] == EventView::Canonical(canonical));
    assert(run_walk(v0, s0, e2) == Some(r2));
}

/// The bottom of the stack is the configuration file the walk started from.
pub open spec fn bottom_is(st: Seq<(Seq<OpView>, nat)>, config_path: Seq<char>) -> bool {
    st.len() >= 1 ==> st[0].0 == seq![OpView::File(config_path)]
}

proof fn lemma_advance_bottom(st: Seq<(Seq<OpView>, nat)>, al: Seq<Seq<char>>, config_path: Seq<char>)
    requires
        bottom_is(st, config_path),
    ensures
        ({
            let (st2, _, p) = advance(st, al);
            &&& bottom_is(st2, config_path)
            &&& (p is Open || p is Glob) ==> st2.len() >= 1
            &&& match p {
                Pause::Open(f) => st2.len() == 1 ==> f == config_path,
                _ => true,
            }
        }),
    decreases stack_measure(st),
{
    if st.len() > 0 {
        let top = st.last();
        if top.1 >= top.0.len() {
            lemma_advance_bottom(st.drop_last(), al, config_path);
        } else {
            let st2 = st.update(st.len() - 1, (top.0, (top.1 + 1) as nat));
            assert(st2.len() >= 1 ==> st2[0].0 == st[0].0);
            lemma_measure_step(st);
            match top.0[top.1 as int] {
                OpView::Alias(a) => {
                    lemma_advance_bottom(st2, record_alias(al, a), config_path);
                },
                _ => {},
            }
        }
    }
}

/// What the walk keeps about its root: the stack rests on the configuration
/// file, a walk that waits for the outside world has a file open, a file
/// being opened or read as the root is the configuration file, and a walk
/// waiting for a file's content has asked to read that file.
pub open spec fn root_ok(v: WalkView, s: StepView, config_path: Seq<char>) -> bool {
    &&& bottom_is(v.stack, config_path)
    &&& !(v.awaiting is Nothing) ==> v.stack.len() >= 1
    &&& match v.awaiting {
        AwaitView::Canonical(f) => v.root ==> f == config_path,
        AwaitView::Content(f) => (v.root ==> f == config_path) && s == StepView::Read(f),
        _ => true,
    }
    &&& !(s matches StepView::Finished(Err(_)))
}

proof fn lemma_proceed_root_ok(v: WalkView, config_path: Seq<char>)
    requires
        bottom_is(v.stack, config_path),
    ensures
        root_ok(proceed(v).0, proceed(v).1, config_path),
{
    lemma_advance_bottom(v.stack, v.aliases, config_path);
}

proof fn lemma_resume_root_ok(v: WalkView, s: StepView, e: EventView, config_path: Seq<char>)
    requires
        root_ok(v, s, config_path),
        accepts(v, e),
    ensures
        root_ok(resume_spec(v, e).0, resume_spec(v, e).1, config_path)
            || (e matches EventView::Failed(m) && v.root && resume_spec(v, e).1 == StepView::Finished(
            Err(m),
        ) && resume_spec(v, e).0.awaiting is Nothing),
{
    match e {
        EventView::Canonical(c) => {
            lemma_proceed_root_ok(v, config_path);
        },
        EventView::Text(t) => {
            let st = v.stack.push((file_ops(t, v.ssh_dir), 0nat));
            assert(st[0] == v.stack[0]);
            lemma_proceed_root_ok(WalkView { stack: st, ..v }, config_path);
        },
        EventView::Matched(Some(ps)) => {
            let st = v.stack.push((ps.map_values(|p: Seq<char>| OpView::File(p)), 0nat));
            assert(st[0] == v.stack[0]);
            lemma_proceed_root_ok(WalkView { stack: st, ..v }, config_path);
        },
        _ => {
            lemma_proceed_root_ok(v, config_path);
        },
    }
}

proof fn lemma_run_error(v: WalkView, s: StepView, events: Seq<EventView>, config_path: Seq<char>)
    requires
        root_ok(v, s, config_path),
    ensures
        run_walk(v, s, events) matches Some((_, StepView::Finished(Err(m)))) ==> {
            &&& events.len() > 0
            &&& events.last() == EventView::Failed(m)
            &&& run_walk(v, s, events.drop_last()) matches Some((_, step))
            &&& step == StepView::Read(config_path)
        },
    decreases events.len(),
{
    if events.len() > 0 && accepts(v, events[0]) {
        let e = events[0];
        let r = resume_spec(v, e);
        let rest = events.drop_first();
        lemma_resume_root_ok(v, s, e, config_path);
        if root_ok(r.0, r.1, config_path) {
            lemma_run_error(r.0, r.1, rest, config_path);
            if rest.len() > 0 {
                assert(events.drop_last().drop_first() =~= rest.drop_last());
                assert(events.drop_last()[0] == e);
                assert(events.last() == rest.last());
            }
        } else {
            if rest.len() > 0 {
                assert(!accepts(r.0, rest[0]));
            } else {
                assert(events.drop_last() =~= Seq::<EventView>::empty());
                assert(v.awaiting matches AwaitView::Content(f) && f == config_path);
            }
        }
    }
}

/// A whole walk over `config_path` fails only when the configuration file
/// itself cannot be read: the walk's last request was to read that file,
/// and the error is the one that reading reported. Missing, unreadable or
/// unmatched included files never end the walk with an error.
pub proof fn law_walk_fails_only_on_the_config_file(config_path: Seq<char>, events: Seq<EventView>)
    ensures
        run_walk(start_spec(config_path).0, start_spec(config_path).1, events) matches Some(
            (_, StepView::Finished(Err(m))),
        ) ==> {
            &&& events.len() > 0
            &&& events.last() == EventView::Failed(m)
            &&& run_walk(start_spec(config_path).0, start_spec(config_path).1, events.drop_last()) matches Some(
                (_, step),
            )
            &&& step == StepView::Read(config_path)
        },
{
    let st: Seq<(Seq<OpView>, nat)> = seq![(seq![OpView::File(config_path)], 0nat)];
    let v0 = WalkView {
        ssh_dir: config_dir(config_path),
        visited: seq![],
        aliases: seq![],
        stack: st,
        awaiting: AwaitView::Nothing,
        root: false,
    };
    lemma_proceed_root_ok(v0, config_path);
    lemma_run_error(start_spec(config_path).0, start_spec(config_path).1, events, config_path);
}
} // verus!
