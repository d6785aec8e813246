//! Inline comment directives that suppress diagnostics.
//!
//! - `-- sqlsift:disable E0002` after SQL on a line suppresses `E0002` on
//!   that line; on a line of its own it suppresses it on the next SQL line.
//! - `-- sqlsift:disable E0002, E0003` names several codes.
//! - `-- sqlsift:disable` suppresses every code.
use vstd::prelude::*;
use crate::diagnostic::{code_of, Diagnostic};
use crate::text::{
    char_is_space, chars_of, has_prefix, is_space, lemma_split_by_nonempty, lemma_split_by_push, slice_of, split_by,
    starts_with, trim, trim_end, trim_start, trimmed, upper, upper_char, vec_eq,
};

verus! {

/// What a directive disables: `None` is every code, `Some(s)` the codes in `s`.
pub type Disabled = Option<Set<Seq<char>>>;

/// Disabling both `e` and `n`.
pub open spec fn merge(e: Disabled, n: Disabled) -> Disabled {
    match (e, n) {
        (Some(a), Some(b)) => Some(a.union(b)),
        _ => None,
    }
}

/// Scanning `l` from `i` in `mode` (0: SQL, 1: inside a single-quoted
/// string, 2: inside a double-quoted identifier), the position of the first
/// `--` that starts a comment. A doubled `''` inside a string is a quote.
pub open spec fn comment_scan(l: Seq<char>, i: int, mode: int) -> Option<int>
    decreases l.len() - i,
{
    if i < 0 || i >= l.len() {
        None
    } else if mode == 1 {
        if l[i] == '\'' {
            if i + 1 < l.len() && l[i + 1] == '\'' {
                comment_scan(l, i + 2, 1)
            } else {
                comment_scan(l, i + 1, 0)
            }
        } else {
            comment_scan(l, i + 1, 1)
        }
    } else if mode == 2 {
        if l[i] == '"' {
            comment_scan(l, i + 1, 0)
        } else {
            comment_scan(l, i + 1, 2)
        }
    } else if l[i] == '\'' {
        comment_scan(l, i + 1, 1)
    } else if l[i] == '"' {
        comment_scan(l, i + 1, 2)
    } else if l[i] == '-' && i + 1 < l.len() && l[i + 1] == '-' {
        Some(i)
    } else {
        comment_scan(l, i + 1, 0)
    }
}

proof fn lemma_comment_scan_bounds(l: Seq<char>, i: int, mode: int)
    ensures
        comment_scan(l, i, mode) is Some ==> 0 <= comment_scan(l, i, mode)->0 && comment_scan(
            l,
            i,
            mode,
        )->0 + 1 < l.len(),
    decreases l.len() - i,
{
    if 0 <= i < l.len() {
        lemma_comment_scan_bounds(l, i + 1, 0);
        lemma_comment_scan_bounds(l, i + 1, 1);
        lemma_comment_scan_bounds(l, i + 1, 2);
        if i + 2 <= l.len() {
            lemma_comment_scan_bounds(l, i + 2, 1);
        }
    }
}

/// Where the line comment of `l` starts, if it has one.
pub open spec fn comment_start(l: Seq<char>) -> Option<int> {
    comment_scan(l, 0, 0)
}

/// The codes named by `pieces`: each piece without surrounding whitespace,
/// in upper case (as `str::to_uppercase` gives it), empty pieces left out.
pub open spec fn codes_of_pieces(pieces: Seq<Seq<char>>) -> Set<Seq<char>>
    decreases pieces.len(),
{
    if pieces.len() == 0 {
        Set::empty()
    } else {
        let rest = codes_of_pieces(pieces.drop_last());
        let t = trim(pieces.last());
        if t.len() > 0 {
            rest.insert(upper_of(t))
        } else {
            rest
        }
    }
}

/// The codes listed in `s`, separated by commas or spaces.
pub open spec fn codes_in(s: Seq<char>) -> Set<Seq<char>> {
    codes_of_pieces(split_by(s, ',', ' '))
}

pub open spec fn directive_word() -> Seq<char> {
    "sqlsift:disable"@
}

/// The directive in line `l`: `None` if there is none, else what it disables.
pub open spec fn directive_of(l: Seq<char>) -> Option<Disabled> {
    match comment_start(l) {
        None => None,
        Some(p) => {
            let t = trim(l.skip(p + 2));
            if !has_prefix(t, directive_word()) {
                None
            } else {
                let rest = t.skip(directive_word().len() as int);
                if rest.len() == 0 {
                    Some(None)
                } else if !is_space(rest[0]) {
                    None
                } else if codes_in(rest).is_empty() {
                    Some(None)
                } else {
                    Some(Some(codes_in(rest)))
                }
            }
        }
    }
}

/// Whether trimmed line text `t` is a comment.
pub open spec fn is_comment_text(t: Seq<char>) -> bool {
    t.len() >= 2 && t[0] == '-' && t[1] == '-'
}

/// The lines of `text`. A trailing newline gives a last, empty line, which
/// never carries or receives a directive.
pub open spec fn lines_of(text: Seq<char>) -> Seq<Seq<char>> {
    split_by(text, '\n', '\n')
}

/// `m` with `d` added to what line `k` disables.
pub open spec fn merge_into(m: Map<int, Disabled>, k: int, d: Disabled) -> Map<int, Disabled> {
    if m.contains_key(k) {
        m.insert(k, merge(m[k], d))
    } else {
        m.insert(k, d)
    }
}

/// The scanner's state after line `line`, numbered `num`: what is pending
/// for the next SQL line, and what each line disables.
///
/// A directive on a comment line is pending (and accumulates with what is
/// pending already). A line that is neither blank nor a comment takes what
/// is pending, and its own directive if it has one. Blank lines and other
/// comment lines leave everything as it is.
pub open spec fn step(
    st: (Option<Disabled>, Map<int, Disabled>),
    line: Seq<char>,
    num: int,
) -> (Option<Disabled>, Map<int, Disabled>) {
    let t = trim(line);
    if directive_of(line) is Some && is_comment_text(t) {
        let d = directive_of(line)->0;
        (
            Some(
                match st.0 {
                    Some(e) => merge(e, d),
                    None => d,
                },
            ),
            st.1,
        )
    } else if t.len() > 0 && !is_comment_text(t) {
        let m1 = match st.0 {
            Some(p) => merge_into(st.1, num, p),
            None => st.1,
        };
        let m2 = match directive_of(line) {
            Some(d) => merge_into(m1, num, d),
            None => m1,
        };
        (None, m2)
    } else {
        st
    }
}

/// The scanner's state after the first `n` lines (numbered from 1).
pub open spec fn scan_lines(lines: Seq<Seq<char>>, n: nat) -> (
    Option<Disabled>,
    Map<int, Disabled>,
)
    decreases n,
{
    if n == 0 {
        (None, Map::empty())
    } else {
        step(scan_lines(lines, (n - 1) as nat), lines[n - 1], n as int)
    }
}

/// What each (1-indexed) line of `text` disables.
pub open spec fn directives_of(text: Seq<char>) -> Map<int, Disabled> {
    scan_lines(lines_of(text), lines_of(text).len()).1
}

/// Whether `m` suppresses `code` on `line`.
pub open spec fn suppressed(m: Map<int, Disabled>, code: Seq<char>, line: int) -> bool {
    m.contains_key(line) && (m[line] is None || m[line]->0.contains(code))
}

proof fn lemma_scan_lines_prefix(a: Seq<Seq<char>>, b: Seq<Seq<char>>, n: nat)
    requires
        n <= a.len(),
        n <= b.len(),
        forall|j: int| 0 <= j < n ==> a[j] == b[j],
    ensures
        scan_lines(a, n) == scan_lines(b, n),
    decreases n,
{
    if n > 0 {
        lemma_scan_lines_prefix(a, b, (n - 1) as nat);
    }
}

/// The upper case of `s` as `str::to_uppercase` gives it.
pub uninterp spec fn upper_of(s: Seq<char>) -> Seq<char>;

/// Relies on `str::to_uppercase` (std): the Unicode upper case of the text,
/// which depends on its characters alone.
#[verifier::external_body]
fn to_upper(s: &Vec<char>) -> (r: Vec<char>)
    ensures
        r@ == upper_of(s@),
{
    s.iter().collect::<String>().to_uppercase().chars().collect()
}

/// The set of codes held by `v`.
pub open spec fn code_set(v: Seq<Vec<char>>) -> Set<Seq<char>> {
    Set::new(|c: Seq<char>| exists|i: int| 0 <= i < v.len() && v[i]@ == c)
}

/// What an executable code list disables.
pub open spec fn disabled_view(o: Option<Vec<Vec<char>>>) -> Disabled {
    match o {
        None => None,
        Some(v) => Some(code_set(v@)),
    }
}

proof fn lemma_code_set_push(v: Seq<Vec<char>>, x: Vec<char>)
    ensures
        code_set(v.push(x)) == code_set(v).insert(x@),
{
    assert forall|c: Seq<char>| code_set(v.push(x)).contains(c) implies code_set(v).insert(
        x@,
    ).contains(c) by {
        let i = choose|i: int| 0 <= i < v.push(x).len() && v.push(x)[i]@ == c;
        if i < v.len() {
            assert(v[i]@ == c);
        }
    }
    assert forall|c: Seq<char>| code_set(v).insert(x@).contains(c) implies code_set(
        v.push(x),
    ).contains(c) by {
        if c == x@ {
            assert(v.push(x)[v.len() as int]@ == c);
        } else {
            let i = choose|i: int| 0 <= i < v.len() && v[i]@ == c;
            assert(v.push(x)[i]@ == c);
        }
    }
    assert(code_set(v.push(x)) =~= code_set(v).insert(x@));
}

/// What a possibly pending directive disables.
pub open spec fn pending_view(p: Option<Option<Vec<Vec<char>>>>) -> Option<Disabled> {
    match p {
        None => None,
        Some(d) => Some(disabled_view(d)),
    }
}

/// What one line disables.
struct LineRule {
    line: usize,
    codes: Option<Vec<Vec<char>>>,
}

spec fn rules_map(rs: Seq<LineRule>) -> Map<int, Disabled>
    decreases rs.len(),
{
    if rs.len() == 0 {
        Map::empty()
    } else {
        rules_map(rs.drop_last()).insert(rs.last().line as int, disabled_view(rs.last().codes))
    }
}

spec fn unique_lines(rs: Seq<LineRule>) -> bool {
    forall|i: int, j: int| 0 <= i < j < rs.len() ==> rs[i].line != rs[j].line
}

proof fn lemma_rules_map_update(rs: Seq<LineRule>, j: int, x: LineRule)
    requires
        unique_lines(rs),
        0 <= j < rs.len(),
        x.line == rs[j].line,
    ensures
        rules_map(rs.update(j, x)) == rules_map(rs).insert(x.line as int, disabled_view(x.codes)),
    decreases rs.len(),
{
    let after = rs.update(j, x);
    if j == rs.len() - 1 {
        assert(after.drop_last() =~= rs.drop_last());
        assert(rules_map(after) =~= rules_map(rs).insert(x.line as int, disabled_view(x.codes)));
    } else {
        lemma_rules_map_update(rs.drop_last(), j, x);
        assert(after.drop_last() =~= rs.drop_last().update(j, x));
        assert(after.last() == rs.last());
        assert(rs.last().line != x.line);
        assert(rules_map(after) =~= rules_map(rs).insert(x.line as int, disabled_view(x.codes)));
    }
}

proof fn lemma_rules_map_at(rs: Seq<LineRule>, i: int)
    requires
        unique_lines(rs),
        0 <= i < rs.len(),
    ensures
        rules_map(rs).contains_key(rs[i].line as int),
        rules_map(rs)[rs[i].line as int] == disabled_view(rs[i].codes),
    decreases rs.len(),
{
    if i < rs.len() - 1 {
        lemma_rules_map_at(rs.drop_last(), i);
    }
}

proof fn lemma_rules_map_absent(rs: Seq<LineRule>, k: int)
    requires
        forall|i: int| 0 <= i < rs.len() ==> rs[i].line != k,
    ensures
        !rules_map(rs).contains_key(k),
    decreases rs.len(),
{
    if rs.len() > 0 {
        lemma_rules_map_absent(rs.drop_last(), k);
    }
}

/// Parsed inline disable directives of one SQL text.
pub struct InlineDirectives {
    rules: Vec<LineRule>,
}

impl View for InlineDirectives {
    type V = Map<int, Disabled>;

    closed spec fn view(&self) -> Map<int, Disabled> {
        rules_map(self.rules@)
    }
}

impl InlineDirectives {
    #[verifier::type_invariant]
    closed spec fn inv(&self) -> bool {
        unique_lines(self.rules@)
    }

    /// Parse inline disable directives from SQL text.
    pub fn parse(sql: &str) -> (r: InlineDirectives)
        ensures
            r@ == directives_of(sql@),
    {
        let text = chars_of(sql);
        let mut pending: Option<Option<Vec<Vec<char>>>> = None;
        let mut rules: Vec<LineRule> = Vec::new();
        let mut cur: Vec<char> = Vec::new();
        let mut num: usize = 0;
        let mut i: usize = 0;
        proof {
            assert(text@.take(0) =~= Seq::<char>::empty());
            assert(rules_map(rules@) =~= Map::empty());
        }
        while i < text.len()
            invariant
                text@ == sql@,
                i <= text.len(),
                num + cur.len() <= i,
                lines_of(text@.take(i as int)).len() == num + 1,
                cur@ == lines_of(text@.take(i as int))[num as int],
                (pending_view(pending), rules_map(rules@)) == scan_lines(
                    lines_of(text@.take(i as int)),
                    num as nat,
                ),
                unique_lines(rules@),
            decreases text.len() - i,
        {
            let ghost ls = lines_of(text@.take(i as int));
            let c = text[i];
            proof {
                assert(text@.take(i + 1) =~= text@.take(i as int).push(c));
                lemma_split_by_push(text@.take(i as int), c, '\n', '\n');
            }
            if c == '\n' {
                proof {
                    lemma_scan_lines_prefix(ls.push(Seq::empty()), ls, num as nat);
                }
                apply_line(&mut pending, &mut rules, &cur, num + 1);
                num = num + 1;
                cur = Vec::new();
            } else {
                cur.push(c);
                proof {
                    let ls2 = ls.update(num as int, ls[num as int].push(c));
                    lemma_scan_lines_prefix(ls2, ls, num as nat);
                }
            }
            i = i + 1;
        }
        proof {
            assert(text@.take(i as int) =~= sql@);
            if cur@.len() == 0 {
                assert(cur@ =~= Seq::<char>::empty());
                assert(comment_scan(cur@, 0, 0) is None);
                assert(trim_start(cur@) == cur@);
                assert(trim_end(cur@) == cur@);
            }
        }
        if cur.len() > 0 {
            apply_line(&mut pending, &mut rules, &cur, num + 1);
        }
        InlineDirectives { rules }
    }

    /// Whether a diagnostic with `code` on (1-indexed) `line` is suppressed.
    pub fn is_suppressed(&self, code: &str, line: usize) -> (r: bool)
        ensures
            r == suppressed(self@, code@, line as int),
    {
        proof {
            use_type_invariant(self);
            assert(unique_lines(self.rules@));
        }
        let rs = &self.rules;
        let mut i: usize = 0;
        while i < rs.len()
            invariant
                rs@ == self.rules@,
                unique_lines(rs@),
                i <= rs.len(),
                forall|k: int| 0 <= k < i ==> rs@[k].line != line,
            decreases rs.len() - i,
        {
            if rs[i].line == line {
                proof {
                    lemma_rules_map_at(rs@, i as int);
                }
                return match &rs[i].codes {
                    None => true,
                    Some(codes) => holds_code(codes, code),
                };
            }
            i = i + 1;
        }
        proof {
            lemma_rules_map_absent(rs@, line as int);
        }
        false
    }
}

impl InlineDirectives {
    /// The diagnostics of `diags` that these directives do not suppress, in
    /// order.
    pub fn filter(&self, diags: Vec<Diagnostic>) -> (r: Vec<Diagnostic>)
        ensures
            r@ == unsuppressed(diags@, self@),
    {
        let mut out: Vec<Diagnostic> = Vec::new();
        let ghost all = diags@;
        proof {
            reveal(Seq::filter);
            assert(all.take(0) =~= Seq::<Diagnostic>::empty());
        }
        for d in it: diags
            invariant
                it.seq() == all,
                out@ == unsuppressed(all.take(it.index() as int), self@),
        {
            let ghost k = it.index() as int;
            proof {
                reveal(Seq::filter);
                assert(all.take(k + 1).drop_last() =~= all.take(k));
                assert(all.take(k + 1).last() == d);
            }
            let hidden = match d.span {
                Some(s) => self.is_suppressed(d.code(), s.line),
                None => false,
            };
            if !hidden {
                out.push(d);
            }
        }
        proof {
            assert(all.take(all.len() as int) =~= all);
        }
        out
    }
}

/// Whether `m` suppresses diagnostic `d`; one without a location never is.
pub open spec fn hides(m: Map<int, Disabled>, d: Diagnostic) -> bool {
    d.span is Some && suppressed(m, code_of(d.kind), d.span->0.line as int)
}

/// The diagnostics of `diags` that `m` does not suppress, in order.
pub open spec fn unsuppressed(diags: Seq<Diagnostic>, m: Map<int, Disabled>) -> Seq<Diagnostic> {
    diags.filter(|d: Diagnostic| !hides(m, d))
}

/// Whether `codes` holds `code`.
fn holds_code(codes: &Vec<Vec<char>>, code: &str) -> (r: bool)
    ensures
        r == code_set(codes@).contains(code@),
{
    let c = chars_of(code);
    let mut i: usize = 0;
    while i < codes.len()
        invariant
            i <= codes.len(),
            c@ == code@,
            forall|k: int| 0 <= k < i ==> codes@[k]@ != code@,
        decreases codes.len() - i,
    {
        if vec_eq(&codes[i], &c) {
            return true;
        }
        i = i + 1;
    }
    false
}

/// Apply the directive, or the pending directive, of line `line` numbered
/// `num`.
fn apply_line(
    pending: &mut Option<Option<Vec<Vec<char>>>>,
    rules: &mut Vec<LineRule>,
    line: &Vec<char>,
    num: usize,
)
    requires
        unique_lines(old(rules)@),
    ensures
        unique_lines(final(rules)@),
        (pending_view(*final(pending)), rules_map(final(rules)@)) == step(
            (pending_view(*old(pending)), rules_map(old(rules)@)),
            line@,
            num as int,
        ),
{
    let t = trimmed(line);
    let is_comment = t.len() >= 2 && t[0] == '-' && t[1] == '-';
    let directive = parse_directive_from_line(line);
    if directive.is_some() && is_comment {
        let codes = directive.unwrap();
        let p = pending.take();
        match p {
            Some(mut existing) => {
                merge_codes(&mut existing, codes);
                *pending = Some(existing);
            },
            None => {
                *pending = Some(codes);
            },
        }
    } else if t.len() > 0 && !is_comment {
        let p = pending.take();
        match p {
            Some(codes) => merge_into_map(rules, num, codes),
            None => {},
        }
        match directive {
            Some(codes) => merge_into_map(rules, num, codes),
            None => {},
        }
    }
}

/// Merge `codes` into what line `line` disables.
fn merge_into_map(rules: &mut Vec<LineRule>, line: usize, codes: Option<Vec<Vec<char>>>)
    requires
        unique_lines(old(rules)@),
    ensures
        unique_lines(final(rules)@),
        rules_map(final(rules)@) == merge_into(rules_map(old(rules)@), line as int, disabled_view(codes)),
{
    let mut j: usize = 0;
    while j < rules.len()
        invariant
            rules@ == old(rules)@,
            unique_lines(rules@),
            j <= rules.len(),
            forall|k: int| 0 <= k < j ==> rules@[k].line != line,
        decreases rules.len() - j,
    {
        if rules[j].line == line {
            let ghost before = rules@;
            proof {
                lemma_rules_map_at(before, j as int);
            }
            let mut r = rules.remove(j);
            merge_codes(&mut r.codes, codes);
            rules.insert(j, r);
            proof {
                assert(rules@ =~= before.update(j as int, r));
                lemma_rules_map_update(before, j as int, r);
            }
            return;
        }
        j = j + 1;
    }
    proof {
        lemma_rules_map_absent(rules@, line as int);
    }
    rules.push(LineRule { line, codes });
    proof {
        assert(rules@.drop_last() =~= old(rules)@);
    }
}

/// Merge `new` into `existing`; `None` disables every code.
fn merge_codes(existing: &mut Option<Vec<Vec<char>>>, new: Option<Vec<Vec<char>>>)
    ensures
        disabled_view(*final(existing)) == merge(disabled_view(*old(existing)), disabled_view(new)),
{
    match new {
        None => {
            *existing = None;
        },
        Some(new_codes) => {
            match existing {
                None => {},
                Some(set) => {
                    let ghost start = set@;
                    let mut i: usize = 0;
                    while i < new_codes.len()
                        invariant
                            i <= new_codes.len(),
                            code_set(set@) == code_set(start).union(code_set(new_codes@.take(i as int))),
                        decreases new_codes.len() - i,
                    {
                        let x = vec_clone(&new_codes[i]);
                        proof {
                            lemma_code_set_push(set@, x);
                            lemma_code_set_push(new_codes@.take(i as int), new_codes@[i as int]);
                            assert(new_codes@.take(i + 1) =~= new_codes@.take(i as int).push(new_codes@[i as int]));
                            assert(code_set(set@.push(x)) =~= code_set(start).union(
                                code_set(new_codes@.take(i + 1)),
                            ));
                        }
                        set.push(x);
                        i = i + 1;
                    }
                    assert(new_codes@.take(i as int) =~= new_codes@);
                },
            }
        },
    }
}

fn vec_clone(v: &Vec<char>) -> (r: Vec<char>)
    ensures
        r@ == v@,
{
    slice_of(v, 0, v.len())
}

/// Find the position of `--` that starts a line comment (not inside a
/// string or a quoted identifier).
fn find_line_comment(line: &Vec<char>) -> (r: Option<usize>)
    ensures
        r is Some ==> comment_start(line@) == Some(r->0 as int),
        r is None ==> comment_start(line@) is None,
{
    let len = line.len();
    let mut i: usize = 0;
    let mut mode: u8 = 0;
    while i < len
        invariant
            len == line.len(),
            i <= len + 1,
            mode <= 2,
            comment_start(line@) == comment_scan(line@, i as int, mode as int),
        decreases len - i,
    {
        let c = line[i];
        if mode == 1 {
            if c == '\'' {
                if i + 1 < len && line[i + 1] == '\'' {
                    i = i + 2;
                } else {
                    i = i + 1;
                    mode = 0;
                }
            } else {
                i = i + 1;
            }
        } else if mode == 2 {
            if c == '"' {
                mode = 0;
            }
            i = i + 1;
        } else if c == '\'' {
            mode = 1;
            i = i + 1;
        } else if c == '"' {
            mode = 2;
            i = i + 1;
        } else if c == '-' && i + 1 < len && line[i + 1] == '-' {
            return Some(i);
        } else {
            i = i + 1;
        }
    }
    None
}

/// The codes named in `rest`, in upper case.
fn collect_codes(rest: &Vec<char>) -> (r: Vec<Vec<char>>)
    ensures
        code_set(r@) == codes_in(rest@),
{
    let mut codes: Vec<Vec<char>> = Vec::new();
    let mut cur: Vec<char> = Vec::new();
    let mut i: usize = 0;
    proof {
        assert(rest@.take(0) =~= Seq::<char>::empty());
        assert(code_set(codes@) =~= Set::empty());
        assert(seq![Seq::<char>::empty()].drop_last() =~= Seq::<Seq<char>>::empty());
    }
    while i < rest.len()
        invariant
            i <= rest.len(),
            split_by(rest@.take(i as int), ',', ' ').len() >= 1,
            cur@ == split_by(rest@.take(i as int), ',', ' ').last(),
            code_set(codes@) == codes_of_pieces(split_by(rest@.take(i as int), ',', ' ').drop_last()),
        decreases rest.len() - i,
    {
        let ghost ps = split_by(rest@.take(i as int), ',', ' ');
        let c = rest[i];
        proof {
            assert(rest@.take(i + 1) =~= rest@.take(i as int).push(c));
            lemma_split_by_push(rest@.take(i as int), c, ',', ' ');
        }
        if c == ',' || c == ' ' {
            let t = trimmed(&cur);
            if t.len() > 0 {
                let u = to_upper(&t);
                proof {
                    lemma_code_set_push(codes@, u);
                }
                codes.push(u);
            }
            proof {
                assert(ps.push(Seq::empty()).drop_last() =~= ps);
                assert(ps.drop_last() =~= ps.drop_last());
            }
            cur = Vec::new();
        } else {
            cur.push(c);
            proof {
                let ps2 = ps.update(ps.len() - 1, ps.last().push(c));
                assert(ps2.drop_last() =~= ps.drop_last());
            }
        }
        i = i + 1;
    }
    let ghost ps = split_by(rest@.take(i as int), ',', ' ');
    assert(rest@.take(i as int) =~= rest@);
    let t = trimmed(&cur);
    if t.len() > 0 {
        let u = to_upper(&t);
        proof {
            lemma_code_set_push(codes@, u);
        }
        codes.push(u);
    }
    codes
}

/// Parse a `-- sqlsift:disable ...` directive from a line: `None` if the
/// line holds none, `Some(None)` if it disables every code, `Some(Some(v))`
/// if it disables the codes in `v`.
fn parse_directive_from_line(line: &Vec<char>) -> (r: Option<Option<Vec<Vec<char>>>>)
    ensures
        r is None <==> directive_of(line@) is None,
        r is Some ==> directive_of(line@) == Some(disabled_view(r->0)),
{
    let p = match find_line_comment(line) {
        Some(p) => p,
        None => return None,
    };
    proof {
        lemma_comment_scan_bounds(line@, 0, 0);
        assert(comment_start(line@) == Some(p as int));
        assert(p + 1 < line.len());
    }
    let comment = slice_of(line, p + 2, line.len());
    assert(comment@ == line@.skip(p + 2));
    let t = trimmed(&comment);
    let word = chars_of("sqlsift:disable");
    if !starts_with(&t, &word) {
        return None;
    }
    let rest = slice_of(&t, word.len(), t.len());
    assert(rest@ == t@.skip(directive_word().len() as int));
    if rest.len() == 0 {
        return Some(None);
    }
    if !char_is_space(rest[0]) {
        return None;
    }
    let codes = collect_codes(&rest);
    if codes.len() == 0 {
        assert(code_set(codes@) =~= Set::empty());
        Some(None)
    } else {
        assert(code_set(codes@).contains(codes@[0]@));
        Some(Some(codes))
    }
}


proof fn lemma_scan_single(ls: Seq<Seq<char>>, l: int, d: Disabled, n: nat)
    requires
        1 <= l <= ls.len(),
        n <= ls.len(),
        directive_of(ls[l - 1]) == Some(d),
        trim(ls[l - 1]).len() > 0,
        !is_comment_text(trim(ls[l - 1])),
        forall|k: int| 0 <= k < ls.len() && k != l - 1 ==> directive_of(#[trigger] ls[k]) is None,
    ensures
        scan_lines(ls, n) == (if n < l {
            (None::<Disabled>, Map::<int, Disabled>::empty())
        } else {
            (None::<Disabled>, Map::<int, Disabled>::empty().insert(l, d))
        }),
    decreases n,
{
    if n > 0 {
        lemma_scan_single(ls, l, d, (n - 1) as nat);
        if n != l {
            assert(directive_of(ls[n - 1]) is None);
        }
    }
}

/// Directive safety: when the only directive of a text disables one code
/// `x` after SQL on line `l`, a diagnostic is suppressed exactly when it has
/// code `x` and stands on line `l`; no other code on `l`, and `x` on no
/// other line, is hidden.
pub proof fn lemma_directive_safety(text: Seq<char>, l: int, x: Seq<char>, code: Seq<char>, line: int)
    requires
        1 <= l <= lines_of(text).len(),
        directive_of(lines_of(text)[l - 1]) == Some(Some(set![x])),
        trim(lines_of(text)[l - 1]).len() > 0,
        !is_comment_text(trim(lines_of(text)[l - 1])),
        forall|k: int|
            0 <= k < lines_of(text).len() && k != l - 1 ==> directive_of(
                #[trigger] lines_of(text)[k],
            ) is None,
    ensures
        suppressed(directives_of(text), code, line) <==> (code == x && line == l),
{
    lemma_scan_single(lines_of(text), l, Some(set![x]), lines_of(text).len());
}

proof fn lemma_upper_char(c: char, d: char)
    requires
        upper_char(c) == upper_char(d),
    ensures
        is_space(c) == is_space(d),
        (c == ',' || c == ' ') == (d == ',' || d == ' '),
{
}

proof fn lemma_upper_drop_last(a: Seq<char>, b: Seq<char>)
    requires
        upper(a) == upper(b),
        a.len() > 0,
    ensures
        upper(a.drop_last()) == upper(b.drop_last()),
        upper_char(a.last()) == upper_char(b.last()),
{
    assert(upper(a).len() == a.len() && upper(b).len() == b.len());
    assert(upper(a)[a.len() - 1] == upper(b)[b.len() - 1]);
    assert(upper(a.drop_last()) =~= upper(a).drop_last());
    assert(upper(b.drop_last()) =~= upper(b).drop_last());
}

proof fn lemma_upper_drop_first(a: Seq<char>, b: Seq<char>)
    requires
        upper(a) == upper(b),
        a.len() > 0,
    ensures
        upper(a.drop_first()) == upper(b.drop_first()),
        upper_char(a[0]) == upper_char(b[0]),
{
    assert(upper(a).len() == a.len() && upper(b).len() == b.len());
    assert(upper(a)[0] == upper(b)[0]);
    assert(upper(a)[0] == upper_char(a[0]));
    assert(upper(b)[0] == upper_char(b[0]));
    assert(upper(a.drop_first()) =~= upper(a).drop_first());
    assert(upper(b.drop_first()) =~= upper(b).drop_first());
}

proof fn lemma_trim_start_upper(a: Seq<char>, b: Seq<char>)
    requires
        upper(a) == upper(b),
    ensures
        upper(trim_start(a)) == upper(trim_start(b)),
    decreases a.len(),
{
    assert(upper(a).len() == a.len() && upper(b).len() == b.len());
    if a.len() > 0 {
        lemma_upper_drop_first(a, b);
        lemma_upper_char(a[0], b[0]);
        if is_space(a[0]) {
            lemma_trim_start_upper(a.drop_first(), b.drop_first());
        }
    }
}

proof fn lemma_trim_end_upper(a: Seq<char>, b: Seq<char>)
    requires
        upper(a) == upper(b),
    ensures
        upper(trim_end(a)) == upper(trim_end(b)),
    decreases a.len(),
{
    assert(upper(a).len() == a.len() && upper(b).len() == b.len());
    if a.len() > 0 {
        lemma_upper_drop_last(a, b);
        lemma_upper_char(a.last(), b.last());
        if is_space(a.last()) {
            lemma_trim_end_upper(a.drop_last(), b.drop_last());
        }
    }
}

proof fn lemma_split_upper(a: Seq<char>, b: Seq<char>)
    requires
        upper(a) == upper(b),
    ensures
        split_by(a, ',', ' ').len() == split_by(b, ',', ' ').len(),
        forall|j: int|
            0 <= j < split_by(a, ',', ' ').len() ==> upper(#[trigger] split_by(a, ',', ' ')[j])
                == upper(split_by(b, ',', ' ')[j]),
    decreases a.len(),
{
    assert(upper(a).len() == a.len() && upper(b).len() == b.len());
    if a.len() > 0 {
        lemma_upper_drop_last(a, b);
        lemma_upper_char(a.last(), b.last());
        lemma_split_upper(a.drop_last(), b.drop_last());
        lemma_split_by_nonempty(a.drop_last(), ',', ' ');
        let pa = split_by(a.drop_last(), ',', ' ');
        let pb = split_by(b.drop_last(), ',', ' ');
        if !(a.last() == ',' || a.last() == ' ') {
            let la = pa.last().push(a.last());
            let lb = pb.last().push(b.last());
            assert(upper(pa.last()) == upper(pb.last()));
            assert(upper(la) =~= upper(pa.last()).push(upper_char(a.last())));
            assert(upper(lb) =~= upper(pb.last()).push(upper_char(b.last())));
        } else {
            assert(upper(Seq::<char>::empty()) =~= Seq::<char>::empty());
        }
    }
}

proof fn lemma_codes_of_pieces_upper(a: Seq<Seq<char>>, b: Seq<Seq<char>>)
    requires
        a.len() == b.len(),
        forall|j: int| 0 <= j < a.len() ==> upper(#[trigger] a[j]) == upper(b[j]),
        forall|j: int| 0 <= j < a.len() ==> upper_of(trim(#[trigger] a[j])) == upper_of(trim(b[j])),
    ensures
        codes_of_pieces(a) == codes_of_pieces(b),
    decreases a.len(),
{
    if a.len() > 0 {
        lemma_codes_of_pieces_upper(a.drop_last(), b.drop_last());
        assert(upper(a.last()) == upper(b.last()));
        assert(upper_of(trim(a.last())) == upper_of(trim(b.last())));
        lemma_trim_start_upper(a.last(), b.last());
        lemma_trim_end_upper(trim_start(a.last()), trim_start(b.last()));
        let ta = trim(a.last());
        let tb = trim(b.last());
        assert(upper(ta).len() == ta.len() && upper(tb).len() == tb.len());
    }
}

/// Directive canonicalization: two code lists that differ only in the
/// letter case of their codes (so each code has the same upper case)
/// disable the same codes.
pub proof fn lemma_codes_case_insensitive(a: Seq<char>, b: Seq<char>)
    requires
        upper(a) == upper(b),
        forall|j: int|
            0 <= j < split_by(a, ',', ' ').len() ==> upper_of(trim(#[trigger] split_by(a, ',', ' ')[j]))
                == upper_of(trim(split_by(b, ',', ' ')[j])),
    ensures
        codes_in(a) == codes_in(b),
{
    lemma_split_upper(a, b);
    lemma_codes_of_pieces_upper(split_by(a, ',', ' '), split_by(b, ',', ' '));
}

/// Filtering is idempotent: dropping what `m` suppresses a second time
/// drops nothing more.
pub proof fn lemma_filter_idempotent(diags: Seq<Diagnostic>, m: Map<int, Disabled>)
    ensures
        unsuppressed(unsuppressed(diags, m), m) == unsuppressed(diags, m),
    decreases diags.len(),
{
    reveal(Seq::filter);
    if diags.len() > 0 {
        lemma_filter_idempotent(diags.drop_last(), m);
        let once = unsuppressed(diags, m);
        if !hides(m, diags.last()) {
            assert(once.drop_last() =~= unsuppressed(diags.drop_last(), m));
        }
    }
}

/// Whether line text `l` holds SQL: it is neither blank nor a comment.
pub open spec fn is_sql_line(l: Seq<char>) -> bool {
    trim(l).len() > 0 && !is_comment_text(trim(l))
}

proof fn lemma_scan_pending(ls: Seq<Seq<char>>, s: int, t: int, d: Disabled, n: nat)
    requires
        1 <= s < t <= ls.len(),
        n <= ls.len(),
        directive_of(ls[s - 1]) == Some(d),
        is_comment_text(trim(ls[s - 1])),
        forall|k: int| 0 <= k < ls.len() && k != s - 1 ==> directive_of(#[trigger] ls[k]) is None,
        forall|k: int| s <= k < t - 1 ==> !is_sql_line(#[trigger] ls[k]),
        is_sql_line(ls[t - 1]),
    ensures
        scan_lines(ls, n) == (if n < s {
            (None::<Disabled>, Map::<int, Disabled>::empty())
        } else if n < t {
            (Some(d), Map::<int, Disabled>::empty())
        } else {
            (None::<Disabled>, Map::<int, Disabled>::empty().insert(t, d))
        }),
    decreases n,
{
    if n > 0 {
        lemma_scan_pending(ls, s, t, d, (n - 1) as nat);
        if n != s {
            assert(directive_of(ls[n - 1]) is None);
        }
        if s < n && n < t {
            assert(!is_sql_line(ls[n - 1]));
        }
    }
}

/// Directive safety for a directive on a line of its own: when the only
/// directive of a text disables one code `x` on a comment line `s`, and
/// line `t` is the first line after it that holds SQL, a diagnostic is
/// suppressed exactly when it has code `x` and stands on line `t`.
pub proof fn lemma_standalone_directive_safety(
    text: Seq<char>,
    s: int,
    t: int,
    x: Seq<char>,
    code: Seq<char>,
    line: int,
)
    requires
        1 <= s < t <= lines_of(text).len(),
        directive_of(lines_of(text)[s - 1]) == Some(Some(set![x])),
        is_comment_text(trim(lines_of(text)[s - 1])),
        forall|k: int|
            0 <= k < lines_of(text).len() && k != s - 1 ==> directive_of(
                #[trigger] lines_of(text)[k],
            ) is None,
        forall|k: int| s <= k < t - 1 ==> !is_sql_line(#[trigger] lines_of(text)[k]),
        is_sql_line(lines_of(text)[t - 1]),
    ensures
        suppressed(directives_of(text), code, line) <==> (code == x && line == t),
{
    lemma_scan_pending(lines_of(text), s, t, Some(set![x]), lines_of(text).len());
}

} // verus!
