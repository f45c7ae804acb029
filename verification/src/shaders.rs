//! The shader assembler: scans template text for `#import` and
//! `#define_import_path` directive lines, inlines imported file contents,
//! and splices compiled rule text over the `{PLACEHOLDER}` token.
//!
//! File reading stays with the caller: the assembler receives the template
//! text and the asset files as plain values, so every step of resolution is
//! a function of its arguments and is verified as such.

use vstd::prelude::*;
use vstd::string::*;
use crate::dsl::{stmt_shader, Statement};
use crate::text::{is_space, is_space_char, matches_at, replace_all, spec_replace};

verus! {

/// What scanning one file's text yields: the import targets in first-seen
/// order (duplicates preserved) and the last declared import-path override,
/// if any.
#[derive(Debug)]
pub struct ShaderImports {
    pub imports: Vec<String>,
    pub import_path: Option<String>,
}

/// The view of an optional string.
pub open spec fn opt_str_view(o: Option<String>) -> Option<Seq<char>> {
    match o {
        Option::Some(s) => Option::Some(s@),
        Option::None => Option::None,
    }
}

impl ShaderImports {
    /// The import targets as character sequences, in recorded order.
    pub open spec fn imports_view(&self) -> Seq<Seq<char>> {
        self.imports@.map_values(|s: String| s@)
    }

    /// The recorded import-path override, if any.
    pub open spec fn path_view(&self) -> Option<Seq<char>> {
        opt_str_view(self.import_path)
    }
}

impl Default for ShaderImports {
    /// An empty scan result: no imports, no path override.
    fn default() -> (r: Self)
        ensures
            r.imports_view() == Seq::<Seq<char>>::empty(),
            r.path_view() is None,
    {
        let r = ShaderImports { imports: Vec::new(), import_path: None };
        proof {
            assert(r.imports_view() =~= Seq::<Seq<char>>::empty());
        }
        r
    }
}

/// The index of the first line feed in `s`, or `s.len()` when there is none.
pub open spec fn line_break(s: Seq<char>) -> int
    decreases s.len(),
{
    if s.len() == 0 {
        0
    } else if s[0] == '\n' {
        0
    } else {
        1 + line_break(s.skip(1))
    }
}

/// Drops a single trailing carriage return, as `str::lines` does for lines
/// that ended in a line feed.
pub open spec fn strip_cr(line: Seq<char>) -> Seq<char> {
    if line.len() > 0 && line.last() == '\r' {
        line.drop_last()
    } else {
        line
    }
}

/// The lines of `s`, split at line feeds, with a carriage return stripped
/// from the end of every line that a line feed terminated.  A final segment
/// without a line feed is kept whole; text ending in a line feed yields no
/// empty final line.
pub open spec fn spec_lines(s: Seq<char>) -> Seq<Seq<char>>
    decreases s.len(),
{
    if s.len() == 0 {
        Seq::empty()
    } else {
        let k = line_break(s);
        if 0 <= k < s.len() {
            seq![strip_cr(s.subrange(0, k))] + spec_lines(s.skip(k + 1))
        } else {
            seq![s]
        }
    }
}

/// The index of the first non-whitespace character at or after `from`,
/// or the line's end.
pub open spec fn ws_end(line: Seq<char>, from: int) -> int
    decreases line.len() - from,
{
    if 0 <= from < line.len() && is_space(line[from]) {
        ws_end(line, from + 1)
    } else {
        from
    }
}

/// What the directive pattern `^\s*#\s*<keyword>\s+(.+)` captures on `line`,
/// if it matches: optional leading whitespace, a `#`, optional whitespace,
/// the keyword, at least one whitespace character, then the capture runs to
/// the line's end.  When only whitespace follows the keyword, the last of
/// at least two whitespace characters is the capture, exactly as the greedy
/// pattern backtracks.
pub open spec fn line_capture(line: Seq<char>, keyword: Seq<char>) -> Option<Seq<char>> {
    let i = ws_end(line, 0);
    if i < line.len() && line[i] == '#' {
        let j = ws_end(line, i + 1);
        if j + keyword.len() <= line.len() && line.subrange(j, j + keyword.len()) == keyword {
            let k = j + keyword.len();
            let m = ws_end(line, k);
            if m < line.len() && m > k {
                Some(line.skip(m))
            } else if m == line.len() && m - k >= 2 {
                Some(line.subrange(m - 1, m))
            } else {
                None
            }
        } else {
            None
        }
    } else {
        None
    }
}

/// The scan of a sequence of lines: `#import` captures are collected in
/// order; the last `#define_import_path` capture wins.  A line is tried as
/// an import first, exactly as the scanner runs.
pub open spec fn scan_lines(lines: Seq<Seq<char>>) -> (Seq<Seq<char>>, Option<Seq<char>>)
    decreases lines.len(),
{
    if lines.len() == 0 {
        (Seq::empty(), None)
    } else {
        let prev = scan_lines(lines.drop_last());
        let line = lines.last();
        match line_capture(line, "import"@) {
            Option::Some(target) => (prev.0.push(target), prev.1),
            Option::None => match line_capture(line, "define_import_path"@) {
                Option::Some(path) => (prev.0, Option::Some(path)),
                Option::None => prev,
            },
        }
    }
}

/// The full scan of a template's text.
pub open spec fn spec_scan(text: Seq<char>) -> (Seq<Seq<char>>, Option<Seq<char>>) {
    scan_lines(spec_lines(text))
}

/// Advances past the whitespace run starting at `from`, matching `ws_end`.
fn ws_scan(line: &str, n: usize, from: usize) -> (r: usize)
    requires
        n == line@.len(),
        from <= n,
    ensures
        r == ws_end(line@, from as int),
        from <= r <= n,
{
    let mut i = from;
    while i < n && is_space_char(line.get_char(i))
        invariant
            n == line@.len(),
            from <= i <= n,
            ws_end(line@, from as int) == ws_end(line@, i as int),
        decreases n - i,
    {
        i += 1;
    }
    proof {
        assert(ws_end(line@, i as int) == i);
    }
    i
}

/// Extracts the directive capture of `^\s*#\s*<keyword>\s+(.+)` from one
/// line, matching `line_capture`.
fn parse_directive(line: &str, keyword: &str) -> (r: Option<String>)
    ensures
        opt_str_view(r) == line_capture(line@, keyword@),
{
    let n = line.unicode_len();
    let klen = keyword.unicode_len();
    let i = ws_scan(line, n, 0);
    if !(i < n && line.get_char(i) == '#') {
        return None;
    }
    let j = ws_scan(line, n, i + 1);
    if !(klen <= n - j && matches_at(line, n, keyword, klen, j)) {
        proof {
            assert(line_capture(line@, keyword@) is None);
        }
        return None;
    }
    let k = j + klen;
    let m = ws_scan(line, n, k);
    if m < n && m > k {
        Some(String::from_str(line.substring_char(m, n)))
    } else if m == n && m - k >= 2 {
        Some(String::from_str(line.substring_char(m - 1, m)))
    } else {
        None
    }
}

/// Splits text into lines, matching `spec_lines`.
fn split_lines(text: &str) -> (r: Vec<String>)
    ensures
        r@.map_values(|l: String| l@) == spec_lines(text@),
{
    let n = text.unicode_len();
    let mut out: Vec<String> = Vec::new();
    let mut start: usize = 0;
    let mut i: usize = 0;
    proof {
        assert(out@.map_values(|l: String| l@) =~= Seq::<Seq<char>>::empty());
        assert(text@.skip(0) =~= text@);
    }
    while i < n
        invariant
            n == text@.len(),
            start <= i <= n,
            spec_lines(text@) == out@.map_values(|l: String| l@) + spec_lines(
                text@.skip(start as int),
            ),
            forall|j: int| start <= j < i ==> text@[j] != '\n',
        decreases n - i,
    {
        let c = text.get_char(i);
        if c == '\n' {
            let ghost seg = text@.skip(start as int);
            proof {
                lemma_line_break_at(seg, i - start);
                assert(seg.subrange(0, i - start) =~= text@.subrange(start as int, i as int));
                assert(seg.skip(i - start + 1) =~= text@.skip(i + 1));
            }
            let line = if i > start && text.get_char(i - 1) == '\r' {
                text.substring_char(start, i - 1)
            } else {
                text.substring_char(start, i)
            };
            proof {
                let raw = text@.subrange(start as int, i as int);
                if i > start && text@[i - 1] == '\r' {
                    assert(raw.len() > 0 && raw.last() == '\r');
                    assert(text@.subrange(start as int, i - 1) =~= raw.drop_last());
                } else {
                    if raw.len() > 0 {
                        assert(raw.last() == text@[i - 1]);
                    }
                }
                assert(line@ == strip_cr(raw));
            }
            let owned = String::from_str(line);
            out.push(owned);
            proof {
                assert(spec_lines(seg) == seq![strip_cr(text@.subrange(start as int, i as int))]
                    + spec_lines(text@.skip(i + 1)));
                assert(out@.map_values(|l: String| l@) =~= out@.map_values(
                    |l: String| l@,
                ).drop_last().push(line@));
                assert(out@.map_values(|l: String| l@).drop_last() + (seq![strip_cr(
                    text@.subrange(start as int, i as int),
                )] + spec_lines(text@.skip(i + 1))) =~= out@.map_values(|l: String| l@)
                    + spec_lines(text@.skip(i + 1)));
            }
            start = i + 1;
        }
        i += 1;
    }
    if start < n {
        let ghost seg = text@.skip(start as int);
        proof {
            lemma_line_break_at(seg, n - start);
            assert(spec_lines(seg) == seq![seg]);
        }
        let line = String::from_str(text.substring_char(start, n));
        proof {
            assert(line@ =~= seg);
        }
        out.push(line);
        proof {
            assert(out@.map_values(|l: String| l@) =~= out@.map_values(
                |l: String| l@,
            ).drop_last().push(seg));
            assert(out@.map_values(|l: String| l@).drop_last() + seq![seg] =~= out@.map_values(
                |l: String| l@,
            ));
        }
    } else {
        proof {
            assert(text@.skip(start as int) =~= Seq::<char>::empty());
            assert(spec_lines(text@.skip(start as int)) =~= Seq::<Seq<char>>::empty());
            assert(out@.map_values(|l: String| l@) + Seq::<Seq<char>>::empty() =~= out@.map_values(
                |l: String| l@,
            ));
        }
    }
    out
}

/// When the first `k` characters of `s` are not line feeds and either `k`
/// is the whole of `s` or `s[k]` is one, the first break is at `k`.
proof fn lemma_line_break_at(s: Seq<char>, k: int)
    requires
        0 <= k <= s.len(),
        forall|j: int| 0 <= j < k ==> s[j] != '\n',
        k < s.len() ==> s[k] == '\n',
    ensures
        line_break(s) == k,
    decreases k,
{
    if s.len() != 0 && s[0] != '\n' {
        assert forall|j: int| 0 <= j < k - 1 implies s.skip(1)[j] != '\n' by {
            assert(s.skip(1)[j] == s[j + 1]);
        }
        lemma_line_break_at(s.skip(1), k - 1);
    }
}

/// Scans shader template text for `#import` and `#define_import_path`
/// directive lines.
pub struct ShaderImportProcessor {}

impl Default for ShaderImportProcessor {
    /// There is no configuration: every processor scans the same way.
    fn default() -> (r: Self)
        ensures
            r == (ShaderImportProcessor {  }),
    {
        ShaderImportProcessor {  }
    }
}

impl ShaderImportProcessor {
    /// Collects the import targets of `shader`'s text in first-seen order,
    /// and its last `#define_import_path` declaration, matching `spec_scan`.
    pub fn get_imports_from_str(&self, shader: &str) -> (r: ShaderImports)
        ensures
            r.imports_view() == spec_scan(shader@).0,
            r.path_view() == spec_scan(shader@).1,
    {
        let lines = split_lines(shader);
        let ghost lines_v = lines@.map_values(|l: String| l@);
        let mut shader_imports = ShaderImports::default();
        let mut idx: usize = 0;
        proof {
            assert(lines_v.subrange(0, 0) =~= Seq::<Seq<char>>::empty());
        }
        while idx < lines.len()
            invariant
                lines_v == lines@.map_values(|l: String| l@),
                idx <= lines.len(),
                shader_imports.imports_view() == scan_lines(
                    lines_v.subrange(0, idx as int),
                ).0,
                shader_imports.path_view() == scan_lines(lines_v.subrange(0, idx as int)).1,
            decreases lines.len() - idx,
        {
            let ghost prefix = lines_v.subrange(0, idx as int);
            let ghost longer = lines_v.subrange(0, idx + 1);
            proof {
                assert(longer.drop_last() =~= prefix);
                assert(longer.last() == lines_v[idx as int]);
            }
            let line = &lines[idx];
            if let Some(import) = parse_directive(line.as_str(), "import") {
                shader_imports.imports.push(import);
                proof {
                    assert(shader_imports.imports_view() =~= scan_lines(longer).0);
                }
            } else if let Some(path) = parse_directive(line.as_str(), "define_import_path") {
                shader_imports.import_path = Some(path);
            }
            idx += 1;
        }
        proof {
            assert(lines_v.subrange(0, lines@.len() as int) =~= lines_v);
        }
        shader_imports
    }
}

/// One file of the asset tree, given to the assembler as plain values: its
/// path relative to the asset root, and its full text.
pub struct AssetFile {
    pub path: String,
    pub contents: String,
}

/// The view of an asset file: its path and contents as character sequences.
pub open spec fn file_view(f: AssetFile) -> (Seq<char>, Seq<char>) {
    (f.path@, f.contents@)
}

/// The view of a whole asset tree.
pub open spec fn files_view(files: Seq<AssetFile>) -> Seq<(Seq<char>, Seq<char>)> {
    files.map_values(|f: AssetFile| file_view(f))
}

/// What makes resolution fail: an import target whose file is not in the
/// asset tree.
#[derive(Debug)]
pub enum ShaderError {
    MissingImport(String),
}

impl ShaderError {
    /// A readable description of the failure.
    pub fn message(&self) -> (r: String)
        ensures
            (match self {
                ShaderError::MissingImport(t) => r@ == "failed to read import file: "@ + t@,
            }),
    {
        match self {
            ShaderError::MissingImport(t) => {
                let mut s = String::from_str("failed to read import file: ");
                s.append(t.as_str());
                s
            },
        }
    }
}

/// The contents stored for `key`, scanning the tree front to back.
pub open spec fn spec_lookup(files: Seq<(Seq<char>, Seq<char>)>, key: Seq<char>) -> Option<
    Seq<char>,
>
    decreases files.len(),
{
    if files.len() == 0 {
        None
    } else if files[0].0 == key {
        Some(files[0].1)
    } else {
        spec_lookup(files.drop_first(), key)
    }
}

/// The path under which an import target is looked up: below the declared
/// import path when the importing file declared one, else directly under
/// the asset root.
pub open spec fn spec_search_key(path: Option<Seq<char>>, target: Seq<char>) -> Seq<char> {
    match path {
        Option::Some(p) => p + "/"@ + target,
        Option::None => target,
    }
}

/// The directive text that resolution substitutes: a `#import `, one space,
/// then the target exactly as captured.
pub open spec fn spec_import_pattern(target: Seq<char>) -> Seq<char> {
    "#import "@ + target
}

/// Splices the import targets into `text`, front to back: each step
/// replaces every occurrence of the target's directive text with the
/// imported contents.  The first target whose file is missing aborts
/// resolution with that target as the error.
pub open spec fn spec_resolve_rec(
    text: Seq<char>,
    targets: Seq<Seq<char>>,
    path: Option<Seq<char>>,
    files: Seq<(Seq<char>, Seq<char>)>,
) -> Result<Seq<char>, Seq<char>>
    decreases targets.len(),
{
    if targets.len() == 0 {
        Ok(text)
    } else {
        match spec_lookup(files, spec_search_key(path, targets[0])) {
            Option::None => Err(targets[0]),
            Option::Some(contents) => spec_resolve_rec(
                spec_replace(text, spec_import_pattern(targets[0]), contents),
                targets.drop_first(),
                path,
                files,
            ),
        }
    }
}

/// Full import resolution of a template's text against an asset tree.
pub open spec fn spec_resolve(text: Seq<char>, files: Seq<(Seq<char>, Seq<char>)>) -> Result<
    Seq<char>,
    Seq<char>,
> {
    spec_resolve_rec(text, spec_scan(text).0, spec_scan(text).1, files)
}

/// The view of an exec resolution result.
pub open spec fn result_view(r: Result<String, ShaderError>) -> Result<Seq<char>, Seq<char>> {
    match r {
        Result::Ok(s) => Result::Ok(s@),
        Result::Err(ShaderError::MissingImport(t)) => Result::Err(t@),
    }
}

/// Finds the contents of `key` in the asset tree, matching `spec_lookup`.
fn lookup_file(files: &Vec<AssetFile>, key: &String) -> (r: Option<String>)
    ensures
        opt_str_view(r) == spec_lookup(files_view(files@), key@),
{
    let ghost fv = files_view(files@);
    let mut idx: usize = 0;
    proof {
        assert(fv.skip(0) =~= fv);
    }
    while idx < files.len()
        invariant
            fv == files_view(files@),
            idx <= files.len(),
            spec_lookup(fv, key@) == spec_lookup(fv.skip(idx as int), key@),
        decreases files.len() - idx,
    {
        let entry = &files[idx];
        proof {
            assert(fv.skip(idx as int)[0] == file_view(files@[idx as int]));
            assert(fv.skip(idx as int).drop_first() =~= fv.skip(idx + 1));
        }
        if entry.path == *key {
            return Some(entry.contents.clone());
        }
        idx += 1;
    }
    proof {
        assert(fv.skip(files@.len() as int) =~= Seq::<(Seq<char>, Seq<char>)>::empty());
    }
    None
}

/// Builds the lookup key for a target, matching `spec_search_key`.
fn make_search_key(path: &Option<String>, target: &String) -> (r: String)
    ensures
        r@ == spec_search_key(opt_str_view(*path), target@),
{
    match path {
        Some(p) => {
            let mut s = p.clone();
            s.append("/");
            s.append(target.as_str());
            s
        },
        None => target.clone(),
    }
}

/// Builds the directive text for a target, matching `spec_import_pattern`.
fn make_import_pattern(target: &String) -> (r: String)
    ensures
        r@ == spec_import_pattern(target@),
{
    let mut s = String::from_str("#import ");
    s.append(target.as_str());
    s
}

impl ShaderImportProcessor {
    /// Resolves every `#import` directive of `text` against `files`:
    /// scans the text, then replaces each target's directive text with the
    /// imported contents, in first-seen order.  Returns the resolved text,
    /// or the first target whose file is missing from `files` — never a
    /// silently empty substitution.  The result is a function of `text` and
    /// `files` alone, so resolving the same template against the same asset
    /// tree again yields byte-identical text.
    pub fn resolve_imports(&self, text: &str, files: &Vec<AssetFile>) -> (r: Result<
        String,
        ShaderError,
    >)
        ensures
            result_view(r) == spec_resolve(text@, files_view(files@)),
    {
        let imports = self.get_imports_from_str(text);
        let ghost targets = imports.imports_view();
        let ghost path = imports.path_view();
        let ghost fv = files_view(files@);
        let mut current = String::from_str(text);
        let mut idx: usize = 0;
        proof {
            assert(targets.skip(0) =~= targets);
        }
        while idx < imports.imports.len()
            invariant
                targets == imports.imports_view(),
                path == imports.path_view(),
                targets == spec_scan(text@).0,
                path == spec_scan(text@).1,
                fv == files_view(files@),
                imports.imports@.map_values(|s: String| s@) == targets,
                idx <= imports.imports.len(),
                spec_resolve_rec(current@, targets.skip(idx as int), path, fv) == spec_resolve_rec(
                    text@,
                    targets,
                    path,
                    fv,
                ),
            decreases imports.imports.len() - idx,
        {
            let target = &imports.imports[idx];
            proof {
                assert(targets.skip(idx as int)[0] == target@);
                assert(targets.skip(idx as int).drop_first() =~= targets.skip(idx + 1));
            }
            let key = make_search_key(&imports.import_path, target);
            match lookup_file(files, &key) {
                None => {
                    return Err(ShaderError::MissingImport(target.clone()));
                },
                Some(contents) => {
                    let pattern = make_import_pattern(target);
                    current = replace_all(current.as_str(), pattern.as_str(), contents.as_str());
                },
            }
            idx += 1;
        }
        proof {
            assert(targets.skip(imports.imports@.len() as int) =~= Seq::<Seq<char>>::empty());
        }
        Ok(current)
    }

    /// Resolves imports, then replaces every occurrence of the
    /// `{PLACEHOLDER}` token with the compiled text of `rule`.
    pub fn resolve_with_rules(&self, text: &str, files: &Vec<AssetFile>, rule: &Statement) -> (r:
        Result<String, ShaderError>)
        ensures
            (match spec_resolve(text@, files_view(files@)) {
                Result::Ok(resolved) => result_view(r) == Result::<Seq<char>, Seq<char>>::Ok(
                    spec_replace(resolved, "{PLACEHOLDER}"@, stmt_shader(*rule)),
                ),
                Result::Err(t) => result_view(r) == Result::<Seq<char>, Seq<char>>::Err(t),
            }),
    {
        match self.resolve_imports(text, files) {
            Ok(resolved) => {
                let rules_text = rule.to_shader();
                Ok(replace_all(resolved.as_str(), "{PLACEHOLDER}", rules_text.as_str()))
            },
            Err(e) => Err(e),
        }
    }
}

/// Resolution is a function of the template text and the asset tree alone:
/// two resolutions of the same template against the same tree yield
/// byte-identical results.
pub proof fn lemma_resolution_deterministic(
    r1: Result<String, ShaderError>,
    r2: Result<String, ShaderError>,
    text: Seq<char>,
    files: Seq<(Seq<char>, Seq<char>)>,
)
    requires
        result_view(r1) == spec_resolve(text, files),
        result_view(r2) == spec_resolve(text, files),
    ensures
        result_view(r1) == result_view(r2),
{
}

/// A template that declares no imports resolves to its raw text, unchanged.
pub proof fn lemma_no_imports_resolves_to_raw(text: Seq<char>, files: Seq<(Seq<char>, Seq<char>)>)
    requires
        spec_scan(text).0.len() == 0,
    ensures
        spec_resolve(text, files) == Result::<Seq<char>, Seq<char>>::Ok(text),
{
}

/// Resolution of a template referencing a target whose file is absent from
/// the asset tree always fails: no missing import is passed over silently.
pub proof fn lemma_missing_import_fails(text: Seq<char>, files: Seq<(Seq<char>, Seq<char>)>)
    requires
        exists|i: int|
            0 <= i < spec_scan(text).0.len() && spec_lookup(
                files,
                spec_search_key(spec_scan(text).1, #[trigger] spec_scan(text).0[i]),
            ) is None,
    ensures
        spec_resolve(text, files) is Err,
{
    let i = choose|i: int|
        0 <= i < spec_scan(text).0.len() && spec_lookup(
            files,
            spec_search_key(spec_scan(text).1, #[trigger] spec_scan(text).0[i]),
        ) is None;
    lemma_resolve_rec_missing(text, spec_scan(text).0, spec_scan(text).1, files, i);
}

proof fn lemma_resolve_rec_missing(
    text: Seq<char>,
    targets: Seq<Seq<char>>,
    path: Option<Seq<char>>,
    files: Seq<(Seq<char>, Seq<char>)>,
    i: int,
)
    requires
        0 <= i < targets.len(),
        spec_lookup(files, spec_search_key(path, targets[i])) is None,
    ensures
        spec_resolve_rec(text, targets, path, files) is Err,
    decreases targets.len(),
{
    if spec_lookup(files, spec_search_key(path, targets[0])) is Some {
        assert(i != 0);
        assert(targets.drop_first()[i - 1] == targets[i]);
        let contents = spec_lookup(files, spec_search_key(path, targets[0]))->Some_0;
        lemma_resolve_rec_missing(
            spec_replace(text, spec_import_pattern(targets[0]), contents),
            targets.drop_first(),
            path,
            files,
            i - 1,
        );
    }
}

} // verus!
