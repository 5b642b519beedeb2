//! The Developer classifier: registry and observable data in, one explainable
//! verdict out.
//!
//! First match wins, and the order below is the whole algorithm:
//!
//!   1. The executable is in the exclusion table: **System**.
//!   2. The executable is a registered *dedicated* program: **Developer**.
//!   3. The executable is a registered *runtime* and its command line holds a
//!      registered signature: **Developer**, naming the signature.
//!   4. A registered runtime whose command line holds none, or could not be
//!      read: **Unknown**.
//!   5. Anything else: **Unknown**.
//!
//! Not consulted: the port, the address, the parent process, resource use.
use vstd::prelude::*;

use crate::logic::registry::{
    excluded_for, program_for, signature_for, spec_excluded_entry, spec_program, spec_signature,
    Evidence, Program, Signature, SignatureKind,
};
use crate::assoc::Assoc;
use crate::models::{Relevance, Service};
use crate::text::{
    chars_of, eq_ignore_case, extend_chars, extend_str, is_whitespace, lower_chars, lower_seq,
    string_of, trim, trim_chars, whitespace,
};

verus! {

/// A verdict and the sentence that justifies it.
#[derive(Debug, Clone, PartialEq, Eq)]
pub struct Classification {
    pub relevance: Relevance,
    /// One sentence naming the table entry, the matched token, or the absence
    /// of both.
    pub reason: String,
}

// ---------------------------------------------------------------- executables

/// `node.exe` to `node`, lowercased. Only a trailing `.exe` is removed, and
/// only when something is left over.
pub open spec fn spec_executable_stem(name: Seq<char>) -> Seq<char> {
    let t = trim(name);
    if t.len() >= 5 && lower_seq(t.skip(t.len() - 4)) == lower_seq(".exe"@) {
        lower_seq(t.take(t.len() - 4))
    } else {
        lower_seq(t)
    }
}

/// The characters `start..end` of `s`.
fn slice_chars(s: &[char], start: usize, end: usize) -> (r: Vec<char>)
    requires
        start <= end <= s@.len(),
    ensures
        r@ == s@.subrange(start as int, end as int),
{
    let mut r: Vec<char> = Vec::new();
    let mut i = start;
    while i < end
        invariant
            start <= i <= end <= s@.len(),
            r@ == s@.subrange(start as int, i as int),
        decreases end - i,
    {
        r.push(s[i]);
        proof {
            assert(s@.subrange(start as int, i as int).push(s@[i as int]) =~= s@.subrange(
                start as int,
                i + 1,
            ));
        }
        i = i + 1;
    }
    r
}

pub fn executable_stem(process_name: &str) -> (r: Vec<char>)
    ensures
        r@ == spec_executable_stem(process_name@),
{
    let name = chars_of(process_name);
    let t = trim_chars(name.as_slice());
    let n = t.len();
    if n >= 5 {
        let tail = slice_chars(t.as_slice(), n - 4, n);
        let exe = chars_of(".exe");
        proof {
            assert(t@.skip(n - 4) =~= tail@);
        }
        if eq_ignore_case(tail.as_slice(), exe.as_slice()) {
            let head = slice_chars(t.as_slice(), 0, n - 4);
            proof {
                assert(t@.take(n - 4) =~= head@);
            }
            return lower_chars(head.as_slice());
        }
    }
    lower_chars(t.as_slice())
}

// -------------------------------------------------------------- tokenization

/// Whitespace, quotes, both path separators and the argument punctuation
/// Windows programs use. `.` is deliberately not a separator, so
/// `node.mojom.NodeService` stays one token.
pub open spec fn is_separator(c: char) -> bool {
    is_whitespace(c) || c == '"' || c == '\'' || c == '\\' || c == '/' || c == '=' || c == ','
        || c == ';' || c == ':' || c == '(' || c == ')'
}

fn separator(c: char) -> (r: bool)
    ensures
        r == is_separator(c),
{
    whitespace(c) || c == '"' || c == '\'' || c == '\\' || c == '/' || c == '=' || c == ',' || c
        == ';' || c == ':' || c == '(' || c == ')'
}

/// Left-to-right scan: the tokens completed so far and the one in progress.
pub open spec fn scan(s: Seq<char>) -> (Seq<Seq<char>>, Seq<char>)
    decreases s.len(),
{
    if s.len() == 0 {
        (Seq::empty(), Seq::empty())
    } else {
        let (done, cur) = scan(s.drop_last());
        let c = s.last();
        if is_separator(c) {
            if cur.len() > 0 {
                (done.push(cur), Seq::empty())
            } else {
                (done, Seq::empty())
            }
        } else {
            (done, cur.push(c))
        }
    }
}

/// The maximal non-empty runs of non-separator characters, in order.
pub open spec fn raw_tokens(s: Seq<char>) -> Seq<Seq<char>> {
    let (done, cur) = scan(s);
    if cur.len() > 0 {
        done.push(cur)
    } else {
        done
    }
}

/// Leading `-` removed, so `--watch` is `watch`.
pub open spec fn strip_dashes(t: Seq<char>) -> Seq<char>
    decreases t.len(),
{
    if t.len() > 0 && t[0] == '-' {
        strip_dashes(t.drop_first())
    } else {
        t
    }
}

/// The closed list of extensions that name a file type rather than a
/// program.
pub open spec fn spec_extensions() -> Seq<&'static str> {
    seq![
        ".js", ".mjs", ".cjs", ".ts", ".mts", ".cts", ".jsx", ".tsx", ".py", ".rb", ".php", ".exe",
        ".cmd", ".bat", ".ps1", ".sh", ".jar",
    ]
}

fn extensions() -> (v: Vec<&'static str>)
    ensures
        v@ == spec_extensions(),
{
    vec![
        ".js", ".mjs", ".cjs", ".ts", ".mts", ".cts", ".jsx", ".tsx", ".py", ".rb", ".php", ".exe",
        ".cmd", ".bat", ".ps1", ".sh", ".jar",
    ]
}

/// The first listed extension that ends `t` (ignoring ASCII case, with
/// something before it) is removed; otherwise `t` is kept.
pub open spec fn strip_extension_from(t: Seq<char>, exts: Seq<&'static str>) -> Seq<char>
    decreases exts.len(),
{
    if exts.len() == 0 {
        t
    } else {
        let e = exts[0]@;
        if t.len() > e.len() && lower_seq(t.skip(t.len() - e.len())) == lower_seq(e) {
            t.take(t.len() - e.len())
        } else {
            strip_extension_from(t, exts.drop_first())
        }
    }
}

pub open spec fn spec_strip_script_extension(t: Seq<char>) -> Seq<char> {
    strip_extension_from(t, spec_extensions())
}

/// One raw token to its comparable form: dashes, then extension, then case.
pub open spec fn spec_normalize(t: Seq<char>) -> Seq<char> {
    lower_seq(spec_strip_script_extension(strip_dashes(t)))
}

/// Normalised tokens, with any that normalise to nothing dropped.
pub open spec fn normalized_tokens(raw: Seq<Seq<char>>) -> Seq<Seq<char>>
    decreases raw.len(),
{
    if raw.len() == 0 {
        Seq::empty()
    } else {
        let rest = normalized_tokens(raw.drop_last());
        let n = spec_normalize(raw.last());
        if n.len() > 0 {
            rest.push(n)
        } else {
            rest
        }
    }
}

/// The comparable tokens of a command line.
pub open spec fn spec_tokens(line: Seq<char>) -> Seq<Seq<char>> {
    normalized_tokens(raw_tokens(line))
}

pub open spec fn views(v: Seq<Vec<char>>) -> Seq<Seq<char>> {
    v.map_values(|x: Vec<char>| x@)
}

/// Split a command line into whole tokens: at separators, empty pieces
/// dropped.
fn raw_tokenize(line: &[char]) -> (r: Vec<Vec<char>>)
    ensures
        views(r@) == raw_tokens(line@),
{
    let mut done: Vec<Vec<char>> = Vec::new();
    let mut cur: Vec<char> = Vec::new();
    let mut i: usize = 0;
    while i < line.len()
        invariant
            i <= line@.len(),
            (views(done@), cur@) == scan(line@.take(i as int)),
        decreases line@.len() - i,
    {
        let c = line[i];
        proof {
            assert(line@.take(i + 1).drop_last() =~= line@.take(i as int));
            assert(line@.take(i + 1).last() == c);
        }
        if separator(c) {
            if cur.len() > 0 {
                let ghost before = views(done@);
                let token = cur;
                done.push(token);
                proof {
                    assert(views(done@) =~= before.push(token@));
                }
                cur = Vec::new();
            }
        } else {
            cur.push(c);
        }
        i = i + 1;
    }
    proof {
        assert(line@.take(line@.len() as int) =~= line@);
    }
    if cur.len() > 0 {
        let ghost before = views(done@);
        let token = cur;
        done.push(token);
        proof {
            assert(views(done@) =~= before.push(token@));
        }
    }
    done
}

/// `str::trim_start_matches('-')`.
fn strip_dashes_chars(t: &[char]) -> (r: Vec<char>)
    ensures
        r@ == strip_dashes(t@),
{
    let mut start: usize = 0;
    proof {
        assert(t@.skip(0) =~= t@);
    }
    while start < t.len() && t[start] == '-'
        invariant
            start <= t@.len(),
            strip_dashes(t@) == strip_dashes(t@.skip(start as int)),
        decreases t@.len() - start,
    {
        proof {
            assert(t@.skip(start as int).drop_first() =~= t@.skip(start + 1));
            assert(t@.skip(start as int)[0] == t@[start as int]);
        }
        start = start + 1;
    }
    proof {
        assert(t@.skip(0) =~= t@);
        let rest = t@.skip(start as int);
        if rest.len() > 0 {
            assert(rest[0] == t@[start as int]);
        }
    }
    let r = slice_chars(t, start, t.len());
    proof {
        assert(r@ =~= t@.skip(start as int));
    }
    r
}

/// Remove a trailing extension that names a file type, not a program.
fn strip_script_extension_chars(token: &[char]) -> (r: Vec<char>)
    ensures
        r@ == spec_strip_script_extension(token@),
{
    let exts = extensions();
    let n = token.len();
    let mut i: usize = 0;
    proof {
        assert(exts@.skip(0) =~= exts@);
    }
    while i < exts.len()
        invariant
            n == token@.len(),
            i <= exts@.len(),
            exts@ == spec_extensions(),
            spec_strip_script_extension(token@) == strip_extension_from(token@, exts@.skip(i as int)),
        decreases exts@.len() - i,
    {
        let e = chars_of(exts[i]);
        let ghost rest = exts@.skip(i as int);
        proof {
            assert(rest[0] == exts@[i as int]);
            assert(rest.drop_first() =~= exts@.skip(i + 1));
        }
        if n > e.len() {
            let tail = slice_chars(token, n - e.len(), n);
            proof {
                assert(token@.skip(n - e@.len()) =~= tail@);
            }
            if eq_ignore_case(tail.as_slice(), e.as_slice()) {
                let head = slice_chars(token, 0, n - e.len());
                proof {
                    assert(token@.take(n - e@.len()) =~= head@);
                }
                return head;
            }
        }
        i = i + 1;
    }
    proof {
        assert(exts@.skip(exts@.len() as int) =~= Seq::<&'static str>::empty());
    }
    slice_chars(token, 0, n)
}

/// One raw token to its comparable form.
pub fn normalize(token: &[char]) -> (r: Vec<char>)
    ensures
        r@ == spec_normalize(token@),
{
    let without_flag = strip_dashes_chars(token);
    let stem = strip_script_extension_chars(without_flag.as_slice());
    lower_chars(stem.as_slice())
}

/// The comparable tokens of a command line, in order.
fn tokenize_chars(command_line: &[char]) -> (r: Vec<Vec<char>>)
    ensures
        views(r@) == spec_tokens(command_line@),
{
    let raw = raw_tokenize(command_line);
    let ghost raw_view = views(raw@);
    let mut out: Vec<Vec<char>> = Vec::new();
    let mut i: usize = 0;
    while i < raw.len()
        invariant
            i <= raw@.len(),
            raw_view == views(raw@),
            raw_view == raw_tokens(command_line@),
            views(out@) == normalized_tokens(raw_view.take(i as int)),
        decreases raw@.len() - i,
    {
        let n = normalize(raw[i].as_slice());
        proof {
            assert(raw_view.take(i + 1).drop_last() =~= raw_view.take(i as int));
            assert(raw_view.take(i + 1).last() == raw@[i as int]@);
        }
        if n.len() > 0 {
            let ghost before = views(out@);
            out.push(n);
            proof {
                assert(views(out@) =~= before.push(n@));
            }
        }
        i = i + 1;
    }
    proof {
        assert(raw_view.take(raw@.len() as int) =~= raw_view);
    }
    out
}

/// A trailing file-type extension removed, from a closed list: `vite.js` is
/// `vite`, and `node.mojom.NodeService` keeps its name.
pub fn strip_script_extension(token: &str) -> (r: String)
    ensures
        r@ == spec_strip_script_extension(token@),
{
    let t = chars_of(token);
    string_of(strip_script_extension_chars(t.as_slice()).as_slice())
}

/// The comparable tokens of a command line, in order: split on whitespace,
/// quotes, path separators and argument punctuation, then each with its
/// leading dashes and script extension removed and lowercased; empty ones
/// dropped.
pub fn tokenize(command_line: &str) -> (r: Vec<String>)
    ensures
        r@.len() == spec_tokens(command_line@).len(),
        forall|i: int| 0 <= i < r@.len() ==> #[trigger] r@[i]@ == spec_tokens(command_line@)[i],
{
    let line = chars_of(command_line);
    let tokens = tokenize_chars(line.as_slice());
    let mut out: Vec<String> = Vec::new();
    let mut i: usize = 0;
    while i < tokens.len()
        invariant
            i <= tokens@.len(),
            views(tokens@) == spec_tokens(command_line@),
            out@.len() == i,
            forall|k: int| 0 <= k < i ==> #[trigger] out@[k]@ == spec_tokens(command_line@)[k],
        decreases tokens@.len() - i,
    {
        out.push(string_of(tokens[i].as_slice()));
        proof {
            assert(views(tokens@)[i as int] == tokens@[i as int]@);
        }
        i = i + 1;
    }
    out
}

// ---------------------------------------------------------------- signatures

pub open spec fn rank(kind: SignatureKind) -> nat {
    match kind {
        SignatureKind::Tool => 0,
        SignatureKind::Verb => 1,
        SignatureKind::Workspace => 2,
    }
}

fn rank_of(kind: SignatureKind) -> (r: u8)
    ensures
        r == rank(kind),
{
    match kind {
        SignatureKind::Tool => 0,
        SignatureKind::Verb => 1,
        SignatureKind::Workspace => 2,
    }
}

/// The strongest registered signature among `tokens`: `Tool` over `Verb`
/// over `Workspace`, and among equals the earliest.
pub open spec fn best_in(tokens: Seq<Seq<char>>) -> Option<Signature>
    decreases tokens.len(),
{
    if tokens.len() == 0 {
        None
    } else {
        let prev = best_in(tokens.drop_last());
        match spec_signature(tokens.last()) {
            None => prev,
            Some(sig) => match prev {
                None => Some(sig),
                Some(cur) => if rank(sig.kind) < rank(cur.kind) {
                    Some(sig)
                } else {
                    prev
                },
            },
        }
    }
}

pub open spec fn spec_best_signature(line: Seq<char>) -> Option<Signature> {
    best_in(spec_tokens(line))
}

/// The strongest registered signature in a command line.
pub fn best_signature(command_line: &[char]) -> (r: Option<Signature>)
    ensures
        r == spec_best_signature(command_line@),
{
    let tokens = tokenize_chars(command_line);
    let ghost toks = views(tokens@);
    let mut best: Option<Signature> = None;
    let mut i: usize = 0;
    while i < tokens.len()
        invariant
            i <= tokens@.len(),
            toks == views(tokens@),
            toks == spec_tokens(command_line@),
            best == best_in(toks.take(i as int)),
        decreases tokens@.len() - i,
    {
        proof {
            assert(toks.take(i + 1).drop_last() =~= toks.take(i as int));
            assert(toks.take(i + 1).last() == tokens@[i as int]@);
        }
        match signature_for(tokens[i].as_slice()) {
            None => {},
            Some(sig) => {
                let replace = match best {
                    None => true,
                    Some(cur) => rank_of(sig.kind) < rank_of(cur.kind),
                };
                if replace {
                    best = Some(sig);
                }
            },
        }
        i = i + 1;
    }
    proof {
        assert(toks.take(tokens@.len() as int) =~= toks);
    }
    best
}

// ------------------------------------------------------------------ verdicts

/// The verdict and the reason for a process name and, when it could be read,
/// its command line.
pub open spec fn spec_classify(name: Seq<char>, line: Option<Seq<char>>) -> (Relevance, Seq<char>) {
    let stem = spec_executable_stem(name);
    match spec_excluded_entry(stem) {
        Some(e) => (Relevance::System, e.display@ + " is "@ + e.category@ + "."@),
        None => if stem.len() == 0 {
            (
                Relevance::Unknown,
                "This process has no readable executable name, so it cannot be classified."@,
            )
        } else {
            match spec_program(stem) {
                None => (
                    Relevance::Unknown,
                    stem
                        + " is in neither the developer nor the system registry, so it is not classified."@,
                ),
                Some(p) => if p.evidence == Evidence::Dedicated {
                    (Relevance::Developer, p.display@ + " is "@ + p.category@ + "."@)
                } else {
                    match line {
                        None => (
                            Relevance::Unknown,
                            p.display@ + " is "@ + p.category@
                                + "; its command line could not be read, so there is nothing to classify it by."@,
                        ),
                        Some(l) => match spec_best_signature(l) {
                            Some(hit) => (
                                Relevance::Developer,
                                match hit.kind {
                                    SignatureKind::Tool => p.display@ + " launched with the "@
                                        + hit.display@ + " signature."@,
                                    SignatureKind::Verb => p.display@
                                        + " command line carries the development token \""@
                                        + hit.token@ + "\"."@,
                                    SignatureKind::Workspace => p.display@ + " launched from "@
                                        + hit.display@ + "."@,
                                },
                            ),
                            None => (
                                Relevance::Unknown,
                                p.display@ + " is "@ + p.category@
                                    + "; nothing in its command line matched a registered development signature."@,
                            ),
                        },
                    }
                }
            }
        }
    }
}

pub open spec fn opt_view(line: Option<&str>) -> Option<Seq<char>> {
    match line {
        Some(l) => Some(l@),
        None => None,
    }
}

/// Classify one service from its executable name and, when it could be
/// read, its command line.
pub fn classify(process_name: &str, command_line: Option<&str>) -> (c: Classification)
    ensures
        (c.relevance, c.reason@) == spec_classify(process_name@, opt_view(command_line)),
{
    let stem = executable_stem(process_name);
    let mut reason: Vec<char> = Vec::new();
    if let Some(e) = excluded_for(stem.as_slice()) {
        extend_str(&mut reason, e.display);
        extend_str(&mut reason, " is ");
        extend_str(&mut reason, e.category);
        extend_str(&mut reason, ".");
        return Classification { relevance: Relevance::System, reason: string_of(reason.as_slice()) };
    }
    if stem.len() == 0 {
        extend_str(
            &mut reason,
            "This process has no readable executable name, so it cannot be classified.",
        );
        return Classification { relevance: Relevance::Unknown, reason: string_of(reason.as_slice()) };
    }
    let program = match program_for(stem.as_slice()) {
        Some(p) => p,
        None => {
            extend_chars(&mut reason, stem.as_slice());
            extend_str(
                &mut reason,
                " is in neither the developer nor the system registry, so it is not classified.",
            );
            return Classification {
                relevance: Relevance::Unknown,
                reason: string_of(reason.as_slice()),
            };
        },
    };
    if program.evidence == Evidence::Dedicated {
        extend_str(&mut reason, program.display);
        extend_str(&mut reason, " is ");
        extend_str(&mut reason, program.category);
        extend_str(&mut reason, ".");
        return Classification {
            relevance: Relevance::Developer,
            reason: string_of(reason.as_slice()),
        };
    }
    let line = match command_line {
        Some(l) => l,
        None => {
            extend_str(&mut reason, program.display);
            extend_str(&mut reason, " is ");
            extend_str(&mut reason, program.category);
            extend_str(
                &mut reason,
                "; its command line could not be read, so there is nothing to classify it by.",
            );
            return Classification {
                relevance: Relevance::Unknown,
                reason: string_of(reason.as_slice()),
            };
        },
    };
    let line_chars = chars_of(line);
    match best_signature(line_chars.as_slice()) {
        Some(hit) => {
            extend_str(&mut reason, program.display);
            match hit.kind {
                SignatureKind::Tool => {
                    extend_str(&mut reason, " launched with the ");
                    extend_str(&mut reason, hit.display);
                    extend_str(&mut reason, " signature.");
                },
                SignatureKind::Verb => {
                    extend_str(&mut reason, " command line carries the development token \"");
                    extend_str(&mut reason, hit.token);
                    extend_str(&mut reason, "\".");
                },
                SignatureKind::Workspace => {
                    extend_str(&mut reason, " launched from ");
                    extend_str(&mut reason, hit.display);
                    extend_str(&mut reason, ".");
                },
            }
            Classification { relevance: Relevance::Developer, reason: string_of(reason.as_slice()) }
        },
        None => {
            extend_str(&mut reason, program.display);
            extend_str(&mut reason, " is ");
            extend_str(&mut reason, program.category);
            extend_str(
                &mut reason,
                "; nothing in its command line matched a registered development signature.",
            );
            Classification { relevance: Relevance::Unknown, reason: string_of(reason.as_slice()) }
        },
    }
}


// ------------------------------------------------------------------ services

/// True when the command line is what settles a service's relevance: the
/// executable is a registered runtime and is not excluded.
pub open spec fn spec_needs_command_line(process_name: Seq<char>) -> bool {
    let stem = spec_executable_stem(process_name);
    &&& spec_excluded_entry(stem) is None
    &&& match spec_program(stem) {
        Some(p) => p.evidence == Evidence::Runtime,
        None => false,
    }
}

/// Which services need a command line read for them. A dedicated program is
/// decided by its name and an excluded one is already refused, so neither is
/// worth a handle.
pub fn needs_command_line(service: &Service) -> (r: bool)
    ensures
        r == spec_needs_command_line(service.process_name@),
{
    let stem = executable_stem(service.process_name.as_str());
    if excluded_for(stem.as_slice()).is_some() {
        return false;
    }
    match program_for(stem.as_slice()) {
        Some(p) => p.evidence == Evidence::Runtime,
        None => false,
    }
}

/// The command line known for an identity: none when it was never read or
/// the read failed.
pub open spec fn line_for(lines: Map<Seq<char>, Option<String>>, id: Seq<char>) -> Option<Seq<char>> {
    if lines.contains_key(id) {
        match lines[id] {
            Some(l) => Some(l@),
            None => None,
        }
    } else {
        None
    }
}

/// `after` is `before` with its verdict filled in from `lines`.
pub open spec fn classified(after: Service, before: Service, lines: Map<Seq<char>, Option<String>>) -> bool {
    let verdict = spec_classify(before.process_name@, line_for(lines, before.id@));
    &&& after == (Service { relevance: after.relevance, relevance_reason: after.relevance_reason, ..before })
    &&& after.relevance == verdict.0
    &&& after.relevance_reason@ == verdict.1
}

/// Classify every service in place, each by its executable name and the
/// command line held for its identity. Identities, not bare PIDs, key the
/// lines, so a recycled PID never inherits another process's verdict.
pub fn apply(services: &mut Vec<Service>, command_lines: &Assoc<Option<String>>)
    requires
        command_lines.wf(),
    ensures
        final(services)@.len() == old(services)@.len(),
        forall|i: int|
            0 <= i < old(services)@.len() ==> classified(
                #[trigger] final(services)@[i],
                old(services)@[i],
                command_lines.view(),
            ),
{
    let ghost before = services@;
    let mut out: Vec<Service> = Vec::new();
    while services.len() > 0
        invariant
            command_lines.wf(),
            out@.len() + services@.len() == before.len(),
            forall|k: int| 0 <= k < services@.len() ==> #[trigger] services@[k] == before[out@.len() + k],
            forall|k: int| 0 <= k < out@.len() ==> classified(#[trigger] out@[k], before[k], command_lines.view()),
        decreases services@.len(),
    {
        let s = services.remove(0);
        let verdict = {
            let line: Option<&str> = match command_lines.get(s.id.as_str()) {
                Some(Some(l)) => Some(l.as_str()),
                _ => None,
            };
            classify(s.process_name.as_str(), line)
        };
        let ghost k = out@.len();
        out.push(Service { relevance: verdict.relevance, relevance_reason: verdict.reason, ..s });
        proof {
            assert(s == before[k as int]);
        }
    }
    *services = out;
}

/// A name that needs no command line is decided by its name alone: whatever
/// line is or is not available, the verdict is the same.
pub proof fn law_name_alone_decides(process_name: Seq<char>, a: Option<Seq<char>>, b: Option<Seq<char>>)
    requires
        !spec_needs_command_line(process_name),
    ensures
        spec_classify(process_name, a) == spec_classify(process_name, b),
{
}

/// The exclusion table wins over everything, and a dedicated program needs
/// nothing but its name.
pub proof fn law_tables_decide_by_name(process_name: Seq<char>, line: Option<Seq<char>>)
    ensures
        spec_excluded_entry(spec_executable_stem(process_name)) is Some ==> spec_classify(process_name, line).0
            == Relevance::System,
        (spec_excluded_entry(spec_executable_stem(process_name)) is None && spec_executable_stem(
            process_name,
        ).len() > 0 && (spec_program(
            spec_executable_stem(process_name),
        ) matches Some(p) && p.evidence == Evidence::Dedicated)) ==> spec_classify(process_name, line).0
            == Relevance::Developer,
{
}

/// A runtime whose command line could not be read is never called
/// development work: without evidence the verdict is Unknown.
pub proof fn law_unread_runtime_is_unknown(process_name: Seq<char>)
    requires
        spec_needs_command_line(process_name),
    ensures
        spec_classify(process_name, None).0 == Relevance::Unknown,
{
}

/// Every verdict carries the sentence that produced it: a reason that is
/// never empty and ends with a full stop.
pub proof fn law_every_verdict_is_a_sentence(process_name: Seq<char>, line: Option<Seq<char>>)
    ensures
        spec_classify(process_name, line).1.len() > 0,
        spec_classify(process_name, line).1.last() == '.',
{
    lemma_ends_with_stop(process_name, line);
}

proof fn lemma_last_of_sum(a: Seq<char>, b: Seq<char>)
    requires
        b.len() > 0,
    ensures
        (a + b).len() > 0,
        (a + b).last() == b.last(),
{
    assert((a + b)[(a + b).len() - 1] == b[b.len() - 1]);
}

proof fn lemma_ends_with_stop(name: Seq<char>, line: Option<Seq<char>>)
    ensures
        spec_classify(name, line).1.len() > 0,
        spec_classify(name, line).1.last() == '.',
{
    reveal_strlit(".");
    reveal_strlit("This process has no readable executable name, so it cannot be classified.");
    reveal_strlit(" is in neither the developer nor the system registry, so it is not classified.");
    reveal_strlit("; its command line could not be read, so there is nothing to classify it by.");
    reveal_strlit(" signature.");
    reveal_strlit("\".");
    reveal_strlit("; nothing in its command line matched a registered development signature.");
    let stem = spec_executable_stem(name);
    match spec_excluded_entry(stem) {
        Some(e) => lemma_last_of_sum(e.display@ + " is "@ + e.category@, "."@),
        None => if stem.len() == 0 {
        } else {
            match spec_program(stem) {
                None => lemma_last_of_sum(
                    stem,
                    " is in neither the developer nor the system registry, so it is not classified."@,
                ),
                Some(p) => if p.evidence == Evidence::Dedicated {
                    lemma_last_of_sum(p.display@ + " is "@ + p.category@, "."@);
                } else {
                    match line {
                        None => lemma_last_of_sum(
                            p.display@ + " is "@ + p.category@,
                            "; its command line could not be read, so there is nothing to classify it by."@,
                        ),
                        Some(l) => match spec_best_signature(l) {
                            Some(hit) => match hit.kind {
                                SignatureKind::Tool => lemma_last_of_sum(
                                    p.display@ + " launched with the "@ + hit.display@,
                                    " signature."@,
                                ),
                                SignatureKind::Verb => lemma_last_of_sum(
                                    p.display@ + " command line carries the development token \""@
                                        + hit.token@,
                                    "\"."@,
                                ),
                                SignatureKind::Workspace => lemma_last_of_sum(
                                    p.display@ + " launched from "@ + hit.display@,
                                    "."@,
                                ),
                            },
                            None => lemma_last_of_sum(
                                p.display@ + " is "@ + p.category@,
                                "; nothing in its command line matched a registered development signature."@,
                            ),
                        },
                    }
                },
            }
        },
    }
}

/// A verdict never depends on the ports or addresses a service listens on,
/// on what spawned it, or on its CPU and memory: two services with the same
/// executable name and the same command line on record are classified alike.
pub proof fn law_verdict_ignores_ports_and_parent(
    a_after: Service,
    a: Service,
    b_after: Service,
    b: Service,
    lines: Map<Seq<char>, Option<String>>,
)
    requires
        classified(a_after, a, lines),
        classified(b_after, b, lines),
        a.process_name@ == b.process_name@,
        line_for(lines, a.id@) == line_for(lines, b.id@),
    ensures
        a_after.relevance == b_after.relevance,
        a_after.relevance_reason@ == b_after.relevance_reason@,
{
}

/// The three ways a service ends up unclassified are never confused: an
/// unregistered executable, a runtime whose command line could not be read,
/// and a runtime whose command line matched nothing each give a reason the
/// other two never give.
pub proof fn law_unknown_reasons_differ(a: Seq<char>, b: Seq<char>, c: Seq<char>, line: Seq<char>)
    requires
        spec_executable_stem(a).len() > 0,
        spec_excluded_entry(spec_executable_stem(a)) is None,
        spec_program(spec_executable_stem(a)) is None,
        spec_executable_stem(b).len() > 0,
        spec_needs_command_line(b),
        spec_executable_stem(c).len() > 0,
        spec_needs_command_line(c),
        spec_best_signature(line) is None,
    ensures
        spec_classify(a, None).1 != spec_classify(b, None).1,
        spec_classify(a, None).1 != spec_classify(c, Some(line)).1,
        spec_classify(b, None).1 != spec_classify(c, Some(line)).1,
{
    let ra = " is in neither the developer nor the system registry, so it is not classified."@;
    let rb = "; its command line could not be read, so there is nothing to classify it by."@;
    let rc = "; nothing in its command line matched a registered development signature."@;
    reveal_strlit(" is in neither the developer nor the system registry, so it is not classified.");
    reveal_strlit("; its command line could not be read, so there is nothing to classify it by.");
    reveal_strlit("; nothing in its command line matched a registered development signature.");
    let x = spec_classify(a, None).1;
    let y = spec_classify(b, None).1;
    let z = spec_classify(c, Some(line)).1;
    // Each ends with its own tail; the tails differ two characters from the end.
    lemma_tail_char(spec_executable_stem(a), ra, 2);
    assert(x[x.len() - 2] == ra[ra.len() - 2]);
    let pb = spec_program(spec_executable_stem(b))->Some_0;
    let pc = spec_program(spec_executable_stem(c))->Some_0;
    lemma_tail_char(pb.display@ + " is "@ + pb.category@, rb, 2);
    lemma_tail_char(pc.display@ + " is "@ + pc.category@, rc, 2);
    assert(y[y.len() - 2] == rb[rb.len() - 2]);
    assert(z[z.len() - 2] == rc[rc.len() - 2]);
    assert(ra[ra.len() - 2] == 'd');
    assert(rb[rb.len() - 2] == 'y');
    assert(rc[rc.len() - 2] == 'e');
}

proof fn lemma_tail_char(a: Seq<char>, b: Seq<char>, k: int)
    requires
        1 <= k <= b.len(),
    ensures
        (a + b).len() >= k,
        (a + b)[(a + b).len() - k] == b[b.len() - k],
{
}

proof fn lemma_scan_after_separator(line: Seq<char>, y: Seq<char>)
    requires
        y.len() > 0,
        is_separator(y[0]),
    ensures
        scan(line + y) == (raw_tokens(line) + scan(y).0, scan(y).1),
    decreases y.len(),
{
    let (d, c) = scan(line);
    if y.len() == 1 {
        assert((line + y).drop_last() =~= line);
        assert((line + y).last() == y[0]);
        assert(y.drop_last() =~= Seq::<char>::empty());
        assert(scan(Seq::<char>::empty()) == (Seq::<Seq<char>>::empty(), Seq::<char>::empty()));
        assert(y.last() == y[0]);
        assert(scan(y) == (Seq::<Seq<char>>::empty(), Seq::<char>::empty()));
        assert(raw_tokens(line) + Seq::<Seq<char>>::empty() =~= raw_tokens(line));
    } else {
        let y1 = y.drop_last();
        assert(y1[0] == y[0]);
        lemma_scan_after_separator(line, y1);
        assert((line + y).drop_last() =~= line + y1);
        assert((line + y).last() == y.last());
        let (d1, c1) = scan(y1);
        let r = raw_tokens(line);
        assert((r + d1).push(c1) =~= r + d1.push(c1));
    }
}

proof fn lemma_raw_tokens_split(line: Seq<char>, x: Seq<char>)
    requires
        x.len() > 0,
        is_separator(x[0]),
    ensures
        raw_tokens(line + x) == raw_tokens(line) + raw_tokens(x),
{
    lemma_scan_after_separator(line, x);
    let (d, c) = scan(x);
    let r = raw_tokens(line);
    assert((r + d).push(c) =~= r + d.push(c));
}

proof fn lemma_normalized_concat(a: Seq<Seq<char>>, b: Seq<Seq<char>>)
    ensures
        normalized_tokens(a + b) == normalized_tokens(a) + normalized_tokens(b),
    decreases b.len(),
{
    if b.len() == 0 {
        assert(a + b =~= a);
        assert(normalized_tokens(a) + normalized_tokens(b) =~= normalized_tokens(a));
    } else {
        lemma_normalized_concat(a, b.drop_last());
        assert((a + b).drop_last() =~= a + b.drop_last());
        assert((a + b).last() == b.last());
        let na = normalized_tokens(a);
        let nb = normalized_tokens(b.drop_last());
        assert((na + nb).push(spec_normalize(b.last())) =~= na + nb.push(spec_normalize(b.last())));
    }
}

proof fn lemma_best_in_ignores_plain_tail(a: Seq<Seq<char>>, b: Seq<Seq<char>>)
    requires
        best_in(b) is None,
    ensures
        best_in(a + b) == best_in(a),
    decreases b.len(),
{
    if b.len() == 0 {
        assert(a + b =~= a);
    } else {
        let b1 = b.drop_last();
        assert(spec_signature(b.last()) is None && best_in(b1) is None) by {
            if best_in(b1) is Some {
                match spec_signature(b.last()) {
                    Some(sig) => {},
                    None => {},
                }
            }
        }
        lemma_best_in_ignores_plain_tail(a, b1);
        assert((a + b).drop_last() =~= a + b1);
        assert((a + b).last() == b.last());
    }
}

/// Names with the same stem are classified alike, and text appended to a
/// command line that starts with whitespace and holds no registered
/// signature (a port, a host, a flag) leaves the verdict as it was.
pub proof fn law_plain_arguments_never_change_a_verdict(
    a: Seq<char>,
    b: Seq<char>,
    line: Seq<char>,
    extra: Seq<char>,
)
    requires
        extra.len() > 0,
        is_whitespace(extra[0]),
        spec_best_signature(extra) is None,
    ensures
        spec_executable_stem(a) == spec_executable_stem(b) ==> spec_classify(a, Some(line)) == spec_classify(
            b,
            Some(line),
        ),
        spec_classify(a, Some(line + extra)) == spec_classify(a, Some(line)),
{
    lemma_raw_tokens_split(line, extra);
    lemma_normalized_concat(raw_tokens(line), raw_tokens(extra));
    lemma_best_in_ignores_plain_tail(spec_tokens(line), spec_tokens(extra));
    assert(spec_best_signature(line + extra) == spec_best_signature(line));
}

/// What each unclassified verdict says. An executable in neither registry is
/// named with the sentence that says so; a runtime whose command line could
/// not be read says it could not be read; a runtime whose command line holds
/// no signature says nothing in it matched.
pub proof fn law_unknown_reasons_say_why(name: Seq<char>, line: Option<Seq<char>>)
    requires
        spec_executable_stem(name).len() > 0,
        spec_excluded_entry(spec_executable_stem(name)) is None,
    ensures
        spec_program(spec_executable_stem(name)) is None ==> spec_classify(name, line) == (
            Relevance::Unknown,
            spec_executable_stem(name)
                + " is in neither the developer nor the system registry, so it is not classified."@,
        ),
        spec_needs_command_line(name) && line is None ==> ({
            let p = spec_program(spec_executable_stem(name))->Some_0;
            spec_classify(name, line) == (
                Relevance::Unknown,
                p.display@ + " is "@ + p.category@
                    + "; its command line could not be read, so there is nothing to classify it by."@,
            )
        }),
        spec_needs_command_line(name) && line is Some && spec_best_signature(line->Some_0) is None ==> ({
            let p = spec_program(spec_executable_stem(name))->Some_0;
            spec_classify(name, line) == (
                Relevance::Unknown,
                p.display@ + " is "@ + p.category@
                    + "; nothing in its command line matched a registered development signature."@,
            )
        }),
{
}

/// Signature strength, written out: a tool is the strongest evidence, then a
/// verb, then a workspace.
pub open spec fn at_least_as_strong(a: SignatureKind, b: SignatureKind) -> bool {
    a == SignatureKind::Tool || b == SignatureKind::Workspace || a == b
}

proof fn lemma_best_in_is_strongest(tokens: Seq<Seq<char>>)
    ensures
        best_in(tokens) is Some <==> exists|i: int| 0 <= i < tokens.len() && #[trigger] spec_signature(tokens[i]) is Some,
        best_in(tokens) matches Some(b) ==> exists|i: int|
            0 <= i < tokens.len() && #[trigger] spec_signature(tokens[i]) == Some(b),
        best_in(tokens) matches Some(b) ==> forall|i: int|
            0 <= i < tokens.len() && #[trigger] spec_signature(tokens[i]) is Some ==> at_least_as_strong(
                b.kind,
                spec_signature(tokens[i])->Some_0.kind,
            ),
    decreases tokens.len(),
{
    if tokens.len() > 0 {
        let rest = tokens.drop_last();
        lemma_best_in_is_strongest(rest);
        let last = tokens.len() - 1;
        assert(tokens[last] == tokens.last());
        let sl = spec_signature(tokens.last());
        let b0 = best_in(rest);
        assert forall|i: int| 0 <= i < rest.len() implies #[trigger] tokens[i] == rest[i] by {}
        if exists|i: int| 0 <= i < tokens.len() && #[trigger] spec_signature(tokens[i]) is Some {
            let i = choose|i: int| 0 <= i < tokens.len() && #[trigger] spec_signature(tokens[i]) is Some;
            if i < last {
                assert(spec_signature(rest[i]) is Some);
            }
        }
        if let Some(b) = best_in(tokens) {
            if sl == Some(b) {
                assert(spec_signature(tokens[last]) == Some(b));
            } else {
                assert(b0 == Some(b));
                let i = choose|i: int| 0 <= i < rest.len() && #[trigger] spec_signature(rest[i]) == Some(b);
                assert(spec_signature(tokens[i]) == Some(b));
            }
            assert forall|i: int|
                0 <= i < tokens.len() && #[trigger] spec_signature(tokens[i]) is Some implies at_least_as_strong(
                b.kind,
                spec_signature(tokens[i])->Some_0.kind,
            ) by {
                if i < last {
                    assert(spec_signature(rest[i]) is Some);
                    assert(b0 is Some);
                }
            }
        }
    }
}

/// The chosen signature is the strongest in the command line: a tool beats
/// a verb, and a verb beats a workspace, wherever they stand. A command line
/// has a signature exactly when one of its tokens is registered, and the one
/// chosen is one of them.
pub proof fn law_strongest_signature_is_chosen(line: Seq<char>)
    ensures
        spec_best_signature(line) is Some <==> exists|i: int|
            0 <= i < spec_tokens(line).len() && #[trigger] spec_signature(spec_tokens(line)[i]) is Some,
        spec_best_signature(line) matches Some(b) ==> exists|i: int|
            0 <= i < spec_tokens(line).len() && #[trigger] spec_signature(spec_tokens(line)[i]) == Some(b),
        spec_best_signature(line) matches Some(b) ==> forall|i: int|
            0 <= i < spec_tokens(line).len() && #[trigger] spec_signature(spec_tokens(line)[i]) is Some
                ==> at_least_as_strong(b.kind, spec_signature(spec_tokens(line)[i])->Some_0.kind),
{
    lemma_best_in_is_strongest(spec_tokens(line));
}

/// Token `i` carries signature `b`, and no token before it carries one of
/// the same kind.
pub open spec fn first_of_its_kind(tokens: Seq<Seq<char>>, i: int, b: Signature) -> bool {
    &&& 0 <= i < tokens.len()
    &&& spec_signature(tokens[i]) == Some(b)
    &&& forall|k: int|
        0 <= k < i && #[trigger] spec_signature(tokens[k]) is Some ==> spec_signature(tokens[k])->Some_0.kind != b.kind
}

proof fn lemma_best_in_is_earliest(tokens: Seq<Seq<char>>)
    ensures
        best_in(tokens) matches Some(b) ==> exists|i: int| #[trigger] first_of_its_kind(tokens, i, b),
    decreases tokens.len(),
{
    if tokens.len() > 0 {
        let rest = tokens.drop_last();
        let last = tokens.len() - 1;
        lemma_best_in_is_earliest(rest);
        lemma_best_in_is_strongest(rest);
        assert(tokens[last] == tokens.last());
        assert forall|k: int| 0 <= k < rest.len() implies #[trigger] tokens[k] == rest[k] by {}
        if let Some(b) = best_in(tokens) {
            let prev = best_in(rest);
            if prev == Some(b) {
                let i = choose|i: int| #[trigger] first_of_its_kind(rest, i, b);
                assert forall|k: int|
                    0 <= k < i && #[trigger] spec_signature(tokens[k]) is Some implies spec_signature(
                    tokens[k],
                )->Some_0.kind != b.kind by {
                    assert(spec_signature(rest[k]) is Some);
                }
                assert(first_of_its_kind(tokens, i, b));
            } else {
                assert(spec_signature(tokens.last()) == Some(b));
                assert forall|k: int|
                    0 <= k < last && #[trigger] spec_signature(tokens[k]) is Some implies spec_signature(
                    tokens[k],
                )->Some_0.kind != b.kind by {
                    assert(spec_signature(rest[k]) is Some);
                    assert(prev is Some);
                    let cur = prev->Some_0;
                    assert(at_least_as_strong(cur.kind, spec_signature(rest[k])->Some_0.kind));
                    assert(rank(b.kind) < rank(cur.kind));
                }
                assert(first_of_its_kind(tokens, last, b));
            }
        }
    }
}

/// Ties keep the earliest token: of several tokens with signatures of the
/// strongest kind present, the first one's signature is chosen, and a later
/// one of equal strength never displaces it.
pub proof fn law_ties_keep_the_earliest_token(line: Seq<char>)
    ensures
        spec_best_signature(line) matches Some(b) ==> exists|i: int| #[trigger] first_of_its_kind(
            spec_tokens(line),
            i,
            b,
        ),
{
    lemma_best_in_is_earliest(spec_tokens(line));
}

/// No Developer verdict without evidence, and none withheld from evidence:
/// a service is Developer exactly when its executable is not excluded and is
/// either a registered dedicated program, or a registered runtime whose
/// command line carries a registered signature. An excluded executable is
/// always System, and nothing else ever is.
pub proof fn law_developer_exactly_with_evidence(name: Seq<char>, line: Option<Seq<char>>)
    ensures
        ({
            let stem = spec_executable_stem(name);
            let evidence = spec_excluded_entry(stem) is None && stem.len() > 0 && match spec_program(stem) {
                Some(p) => p.evidence == Evidence::Dedicated || (line is Some && spec_best_signature(
                    line->Some_0,
                ) is Some),
                None => false,
            };
            &&& (spec_classify(name, line).0 == Relevance::Developer) <==> evidence
            &&& (spec_classify(name, line).0 == Relevance::System) <==> spec_excluded_entry(stem) is Some
        }),
{
}

} // verus!
