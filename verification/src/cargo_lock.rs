//! The `Cargo.lock` parser: a line-oriented state machine that collects
//! the `[[package]]` entries of a lockfile (name, version, checksum and
//! dependency list).

use vstd::prelude::*;

use crate::text::{
    chars_of, count_char, first_pos, has_prefix, last_pos, lemma_split_on_extend,
    lemma_split_on_nonempty, lemma_split_on_prefix, skip_back, skip_front, split_on, string_of, trim, trim_char,
    trim_window, window_count, window_eq, window_find, window_has_prefix, window_rfind,
    strip_back, strip_front, CharClass,
};

verus! {

/// A package extracted from Cargo.lock.
#[derive(Debug, Clone, PartialEq)]
pub struct Package {
    pub name: String,
    pub version: String,
    pub checksum: Option<String>,
    pub dependencies: Vec<String>,
}

/// The mathematical value of a [`Package`].
pub struct PackageModel {
    pub name: Seq<char>,
    pub version: Seq<char>,
    pub checksum: Option<Seq<char>>,
    pub dependencies: Seq<Seq<char>>,
}

pub open spec fn opt_chars(o: Option<String>) -> Option<Seq<char>> {
    match o {
        Some(s) => Some(s@),
        None => None,
    }
}

/// The characters of each string of `v`.
pub open spec fn views_of(v: Seq<String>) -> Seq<Seq<char>> {
    v.map_values(|x: String| x@)
}

impl View for Package {
    type V = PackageModel;

    open spec fn view(&self) -> PackageModel {
        PackageModel {
            name: self.name@,
            version: self.version@,
            checksum: opt_chars(self.checksum),
            dependencies: views_of(self.dependencies@),
        }
    }
}

/// The value of each package of `v`.
pub open spec fn package_views(v: Seq<Package>) -> Seq<PackageModel> {
    v.map_values(|p: Package| p@)
}

/// An item of a dependency list: the piece between commas, trimmed, and
/// with its surrounding double quotes removed.
pub open spec fn clean_item(p: Seq<char>) -> Seq<char> {
    trim_char(trim(p), '"')
}

/// The texts of `xs` that are not empty, in order.
pub open spec fn keep_nonempty(xs: Seq<Seq<char>>) -> Seq<Seq<char>>
    decreases xs.len(),
{
    if xs.len() == 0 {
        Seq::empty()
    } else if xs.last().len() > 0 {
        keep_nonempty(xs.drop_last()).push(xs.last())
    } else {
        keep_nonempty(xs.drop_last())
    }
}

/// The dependency names listed in `inner`, the text between the brackets
/// of `dependencies = [ .. ]`: the comma-separated items, cleaned, the
/// empty ones left out.
pub open spec fn dependency_list(inner: Seq<char>) -> Seq<Seq<char>> {
    keep_nonempty(split_on(inner, ',').map_values(|p: Seq<char>| clean_item(p)))
}

/// The bounds of `clean_item` of the window `s[lo..hi]`.
fn clean_item_window(s: &Vec<char>, lo: usize, hi: usize) -> (r: (usize, usize))
    requires
        lo <= hi <= s.len(),
    ensures
        lo <= r.0 <= r.1 <= hi,
        s@.subrange(r.0 as int, r.1 as int) == clean_item(s@.subrange(lo as int, hi as int)),
{
    let (a, b) = trim_window(s, lo, hi);
    let a2 = skip_front(s, a, b, CharClass::Exactly('"'));
    let b2 = skip_back(s, a2, b, CharClass::Exactly('"'));
    (a2, b2)
}

proof fn lemma_keep_nonempty_push_clean(parts: Seq<Seq<char>>)
    requires
        parts.len() >= 1,
    ensures
        keep_nonempty(parts.map_values(|p: Seq<char>| clean_item(p))) == (if clean_item(
            parts.last(),
        ).len() > 0 {
            keep_nonempty(parts.drop_last().map_values(|p: Seq<char>| clean_item(p))).push(
                clean_item(parts.last()),
            )
        } else {
            keep_nonempty(parts.drop_last().map_values(|p: Seq<char>| clean_item(p)))
        }),
{
    let m = parts.map_values(|p: Seq<char>| clean_item(p));
    assert(m.drop_last() =~= parts.drop_last().map_values(|p: Seq<char>| clean_item(p)));
    assert(m.last() == clean_item(parts.last()));
}

/// Appends `clean_item` of the window `s[lo..hi]` to `out` when it is not
/// empty.
fn push_item(out: &mut Vec<String>, s: &Vec<char>, lo: usize, hi: usize)
    requires
        lo <= hi <= s.len(),
    ensures
        views_of(final(out)@) == (if clean_item(s@.subrange(lo as int, hi as int)).len() > 0 {
            views_of(old(out)@).push(clean_item(s@.subrange(lo as int, hi as int)))
        } else {
            views_of(old(out)@)
        }),
{
    let (a, b) = clean_item_window(s, lo, hi);
    if a < b {
        let item = string_of(s, a, b);
        out.push(item);
        assert(views_of(out@) =~= views_of(old(out)@).push(
            clean_item(s@.subrange(lo as int, hi as int)),
        ));
    }
}

/// The dependency names listed in the window `s[lo..hi]`.
fn dependency_list_of(s: &Vec<char>, lo: usize, hi: usize) -> (r: Vec<String>)
    requires
        lo <= hi <= s.len(),
    ensures
        views_of(r@) == dependency_list(s@.subrange(lo as int, hi as int)),
{
    let mut out: Vec<String> = Vec::new();
    let mut start = lo;
    let mut i = lo;
    proof {
        assert(s@.subrange(lo as int, lo as int) =~= Seq::<char>::empty());
        assert(views_of(out@) =~= Seq::<Seq<char>>::empty());
        assert(split_on(s@.subrange(lo as int, lo as int), ',').drop_last() =~= Seq::<
            Seq<char>,
        >::empty());
    }
    while i < hi
        invariant
            lo <= start <= i <= hi <= s.len(),
            split_on(s@.subrange(lo as int, i as int), ',').last() == s@.subrange(
                start as int,
                i as int,
            ),
            views_of(out@) == keep_nonempty(
                split_on(s@.subrange(lo as int, i as int), ',').drop_last().map_values(
                    |p: Seq<char>| clean_item(p),
                ),
            ),
        decreases hi - i,
    {
        let ghost parts = split_on(s@.subrange(lo as int, i as int), ',');
        proof {
            lemma_split_on_extend(s@, lo as int, i as int, ',');
            lemma_split_on_nonempty(s@.subrange(lo as int, i as int), ',');
        }
        if s[i] == ',' {
            proof {
                lemma_keep_nonempty_push_clean(parts);
            }
            push_item(&mut out, s, start, i);
            start = i + 1;
            proof {
                assert(parts.push(Seq::empty()).drop_last() =~= parts);
                assert(s@.subrange(start as int, (i + 1) as int) =~= Seq::<char>::empty());
            }
        } else {
            proof {
                let np = parts.update(parts.len() - 1, parts.last().push(s@[i as int]));
                assert(np.drop_last() =~= parts.drop_last());
                assert(np.last() =~= s@.subrange(start as int, (i + 1) as int));
            }
        }
        i = i + 1;
    }
    proof {
        let parts = split_on(s@.subrange(lo as int, hi as int), ',');
        lemma_split_on_nonempty(s@.subrange(lo as int, hi as int), ',');
        lemma_keep_nonempty_push_clean(parts);
    }
    push_item(&mut out, s, start, hi);
    out
}


/// The state of the parser between two lines.
pub struct ScanModel {
    /// The packages completed so far.
    pub packages: Seq<PackageModel>,
    pub name: Option<Seq<char>>,
    pub version: Option<Seq<char>>,
    pub checksum: Option<Seq<char>>,
    pub deps: Seq<Seq<char>>,
    /// A `[[package]]` header has been seen.
    pub in_package: bool,
    /// Inside a dependency list that spans several lines.
    pub in_deps: bool,
    /// The lines of that list read so far, trimmed and joined.
    pub buffer: Seq<char>,
}

pub open spec fn initial_scan() -> ScanModel {
    ScanModel {
        packages: Seq::empty(),
        name: None,
        version: None,
        checksum: None,
        deps: Seq::empty(),
        in_package: false,
        in_deps: false,
        buffer: Seq::empty(),
    }
}

/// The text between the brackets of a dependency list: leading `[`s and
/// trailing `]`s removed.
pub open spec fn bracket_inner(b: Seq<char>) -> Seq<char> {
    strip_back(strip_front(b, CharClass::Exactly('[')), CharClass::Exactly(']'))
}

/// A `[[package]]` header: the package read so far is completed when it
/// has both a name and a version (taking its checksum and dependencies);
/// name and version are reset in any case.
pub open spec fn start_package(st: ScanModel) -> ScanModel {
    let st1 = if st.name is Some && st.version is Some {
        ScanModel {
            packages: st.packages.push(
                PackageModel {
                    name: st.name.unwrap(),
                    version: st.version.unwrap(),
                    checksum: st.checksum,
                    dependencies: st.deps,
                },
            ),
            checksum: None,
            deps: Seq::empty(),
            ..st
        }
    } else {
        st
    };
    ScanModel { name: None, version: None, in_package: true, in_deps: false, ..st1 }
}

/// A line `t` inside a multi-line dependency list: it is added to the
/// buffer, and a `]` in it closes the list.
pub open spec fn continue_dependencies(st: ScanModel, t: Seq<char>) -> ScanModel {
    let buf = st.buffer + t;
    if t.contains(']') {
        ScanModel {
            deps: dependency_list(bracket_inner(buf)),
            in_deps: false,
            buffer: Seq::empty(),
            ..st
        }
    } else {
        ScanModel { buffer: buf, ..st }
    }
}

/// A line `t` that begins with `dependencies`. `None` where a one-line list
/// has its last `]` before its first `[`: the text between them is not
/// defined, and such a lockfile has no parse.
pub open spec fn open_dependencies(st: ScanModel, t: Seq<char>) -> Option<ScanModel> {
    if t.contains('[') && t.contains(']') && count_char(t, '"') >= 2 {
        let a = first_pos(t, '[');
        let b = last_pos(t, ']');
        if b < a + 1 {
            None
        } else {
            Some(ScanModel { deps: dependency_list(t.subrange(a + 1, b)), ..st })
        }
    } else if t.contains('[') {
        let buf = t.skip(first_pos(t, '['));
        if buf.contains(']') {
            Some(
                ScanModel {
                    deps: dependency_list(bracket_inner(buf)),
                    in_deps: false,
                    buffer: Seq::empty(),
                    ..st
                },
            )
        } else {
            Some(ScanModel { in_deps: true, buffer: buf, ..st })
        }
    } else {
        Some(st)
    }
}

/// A line `t` of the form `key = value`: `name`, `version` and `checksum`
/// are recorded (value trimmed, quotes removed), other keys ignored.
pub open spec fn assign_field(st: ScanModel, t: Seq<char>) -> ScanModel {
    if t.contains('=') {
        let e = first_pos(t, '=');
        let key = trim(t.take(e));
        let value = trim_char(trim(t.skip(e + 1)), '"');
        if key == "name"@ {
            ScanModel { name: Some(value), ..st }
        } else if key == "version"@ {
            ScanModel { version: Some(value), ..st }
        } else if key == "checksum"@ {
            ScanModel { checksum: Some(value), ..st }
        } else {
            st
        }
    } else {
        st
    }
}

/// The effect of one line of the lockfile; `None` where the line has no
/// meaning (see `open_dependencies`).
pub open spec fn scan_line(st: ScanModel, line: Seq<char>) -> Option<ScanModel> {
    let t = trim(line);
    if t == "[[package]]"@ {
        Some(start_package(st))
    } else if !st.in_package {
        Some(st)
    } else if st.in_deps {
        Some(continue_dependencies(st, t))
    } else if has_prefix(t, "dependencies"@) {
        open_dependencies(st, t)
    } else {
        Some(assign_field(st, t))
    }
}

/// The state after the lines `lines`, read in order.
pub open spec fn scan(lines: Seq<Seq<char>>) -> Option<ScanModel>
    decreases lines.len(),
{
    if lines.len() == 0 {
        Some(initial_scan())
    } else {
        match scan(lines.drop_last()) {
            Some(st) => scan_line(st, lines.last()),
            None => None,
        }
    }
}

/// The packages at the end of the input: the last package is completed
/// when it has both a name and a version.
pub open spec fn finish(st: ScanModel) -> Seq<PackageModel> {
    if st.name is Some && st.version is Some {
        st.packages.push(
            PackageModel {
                name: st.name.unwrap(),
                version: st.version.unwrap(),
                checksum: st.checksum,
                dependencies: st.deps,
            },
        )
    } else {
        st.packages
    }
}

/// The lines of `s` as `str::lines` gives them, up to a trailing `\r`
/// (which trimming removes): the pieces between `\n`s, without the empty
/// piece after a final `\n`.
pub open spec fn lock_lines(s: Seq<char>) -> Seq<Seq<char>> {
    let parts = split_on(s, '\n');
    if parts.last().len() == 0 {
        parts.drop_last()
    } else {
        parts
    }
}

/// `s` has a parse: no one-line dependency list, read inside a package,
/// has its last `]` before its first `[`.
pub open spec fn parse_defined(s: Seq<char>) -> bool {
    scan(lock_lines(s)) is Some
}

/// The packages that parsing `s` gives.
pub open spec fn parsed_packages(s: Seq<char>) -> Seq<PackageModel> {
    finish(scan(lock_lines(s)).unwrap())
}


/// The parser's state between two lines.
struct Scan {
    packages: Vec<Package>,
    name: Option<String>,
    version: Option<String>,
    checksum: Option<String>,
    deps: Vec<String>,
    in_package: bool,
    in_deps: bool,
    buffer: Vec<char>,
}

impl View for Scan {
    type V = ScanModel;

    closed spec fn view(&self) -> ScanModel {
        ScanModel {
            packages: package_views(self.packages@),
            name: opt_chars(self.name),
            version: opt_chars(self.version),
            checksum: opt_chars(self.checksum),
            deps: views_of(self.deps@),
            in_package: self.in_package,
            in_deps: self.in_deps,
            buffer: self.buffer@,
        }
    }
}

/// The words the parser looks for, as characters.
struct Keywords {
    header: Vec<char>,
    dependencies: Vec<char>,
    name: Vec<char>,
    version: Vec<char>,
    checksum: Vec<char>,
}

impl Keywords {
    closed spec fn wf(&self) -> bool {
        &&& self.header@ == "[[package]]"@
        &&& self.dependencies@ == "dependencies"@
        &&& self.name@ == "name"@
        &&& self.version@ == "version"@
        &&& self.checksum@ == "checksum"@
    }

    fn new() -> (k: Keywords)
        ensures
            k.wf(),
    {
        Keywords {
            header: chars_of("[[package]]"),
            dependencies: chars_of("dependencies"),
            name: chars_of("name"),
            version: chars_of("version"),
            checksum: chars_of("checksum"),
        }
    }
}

fn start_package_exec(st: Scan) -> (r: Scan)
    ensures
        r@ == start_package(st@),
{
    let ghost old_st = st@;
    let Scan { mut packages, name, version, checksum, deps, in_package: _, in_deps: _, buffer } =
        st;
    if name.is_some() && version.is_some() {
        let ghost pv = package_views(packages@);
        let p = Package {
            name: name.unwrap(),
            version: version.unwrap(),
            checksum,
            dependencies: deps,
        };
        assert(p@ == PackageModel {
            name: old_st.name.unwrap(),
            version: old_st.version.unwrap(),
            checksum: old_st.checksum,
            dependencies: old_st.deps,
        });
        packages.push(p);
        assert(package_views(packages@) =~= pv.push(p@));
        let r = Scan {
            packages,
            name: None,
            version: None,
            checksum: None,
            deps: Vec::new(),
            in_package: true,
            in_deps: false,
            buffer,
        };
        assert(r@.deps =~= Seq::<Seq<char>>::empty());
        r
    } else {
        Scan {
            packages,
            name: None,
            version: None,
            checksum,
            deps,
            in_package: true,
            in_deps: false,
            buffer,
        }
    }
}

/// Appends the window `s[lo..hi]` to `v`.
fn append_window(v: &mut Vec<char>, s: &Vec<char>, lo: usize, hi: usize)
    requires
        lo <= hi <= s.len(),
    ensures
        final(v)@ == old(v)@ + s@.subrange(lo as int, hi as int),
{
    let mut i = lo;
    while i < hi
        invariant
            lo <= i <= hi <= s.len(),
            v@ == old(v)@ + s@.subrange(lo as int, i as int),
        decreases hi - i,
    {
        v.push(s[i]);
        assert(v@ =~= old(v)@ + s@.subrange(lo as int, i + 1));
        i = i + 1;
    }
}

/// The dependency names between the brackets of the window `s[lo..hi]`.
fn bracketed_list(s: &Vec<char>, lo: usize, hi: usize) -> (r: Vec<String>)
    requires
        lo <= hi <= s.len(),
    ensures
        views_of(r@) == dependency_list(bracket_inner(s@.subrange(lo as int, hi as int))),
{
    let x = skip_front(s, lo, hi, CharClass::Exactly('['));
    let y = skip_back(s, x, hi, CharClass::Exactly(']'));
    dependency_list_of(s, x, y)
}

fn continue_dependencies_exec(st: Scan, text: &Vec<char>, a: usize, b: usize) -> (r: Scan)
    requires
        a <= b <= text.len(),
    ensures
        r@ == continue_dependencies(st@, text@.subrange(a as int, b as int)),
{
    let Scan { packages, name, version, checksum, deps, in_package, in_deps, mut buffer } = st;
    append_window(&mut buffer, text, a, b);
    if window_find(text, a, b, ']').is_some() {
        let n = buffer.len();
        assert(buffer@.subrange(0, n as int) =~= buffer@);
        let list = bracketed_list(&buffer, 0, n);
        Scan {
            packages,
            name,
            version,
            checksum,
            deps: list,
            in_package,
            in_deps: false,
            buffer: Vec::new(),
        }
    } else {
        Scan { packages, name, version, checksum, deps, in_package, in_deps, buffer }
    }
}

fn open_dependencies_exec(st: Scan, text: &Vec<char>, a: usize, b: usize) -> (r: Option<Scan>)
    requires
        a <= b <= text.len(),
    ensures
        match r {
            Some(n) => open_dependencies(st@, text@.subrange(a as int, b as int)) == Some(n@),
            None => open_dependencies(st@, text@.subrange(a as int, b as int)) is None,
        },
{
    let ghost t = text@.subrange(a as int, b as int);
    let lb = window_find(text, a, b, '[');
    let rb = window_find(text, a, b, ']');
    if lb.is_some() && rb.is_some() && window_count(text, a, b, '"') >= 2 {
        let i = lb.unwrap();
        let j = match window_rfind(text, a, b, ']') {
            Some(j) => j,
            None => { return None; },
        };
        if j < i + 1 {
            return None;
        }
        assert(t.subrange(i - a + 1, j - a) =~= text@.subrange(i + 1, j as int));
        let list = dependency_list_of(text, i + 1, j);
        let Scan { packages, name, version, checksum, deps: _, in_package, in_deps, buffer } = st;
        Some(Scan { packages, name, version, checksum, deps: list, in_package, in_deps, buffer })
    } else if lb.is_some() {
        let i = lb.unwrap();
        assert(t.skip(i - a) =~= text@.subrange(i as int, b as int));
        let Scan { packages, name, version, checksum, deps, in_package, in_deps: _, buffer: _ } =
            st;
        if window_find(text, i, b, ']').is_some() {
            let list = bracketed_list(text, i, b);
            Some(
                Scan {
                    packages,
                    name,
                    version,
                    checksum,
                    deps: list,
                    in_package,
                    in_deps: false,
                    buffer: Vec::new(),
                },
            )
        } else {
            let mut buf: Vec<char> = Vec::new();
            append_window(&mut buf, text, i, b);
            assert(buf@ =~= text@.subrange(i as int, b as int));
            Some(
                Scan {
                    packages,
                    name,
                    version,
                    checksum,
                    deps,
                    in_package,
                    in_deps: true,
                    buffer: buf,
                },
            )
        }
    } else {
        Some(st)
    }
}

fn assign_field_exec(st: Scan, text: &Vec<char>, a: usize, b: usize, kw: &Keywords) -> (r: Scan)
    requires
        a <= b <= text.len(),
        kw.wf(),
    ensures
        r@ == assign_field(st@, text@.subrange(a as int, b as int)),
{
    let ghost t = text@.subrange(a as int, b as int);
    match window_find(text, a, b, '=') {
        None => st,
        Some(e) => {
            assert(t.take(e - a) =~= text@.subrange(a as int, e as int));
            assert(t.skip(e - a + 1) =~= text@.subrange(e + 1, b as int));
            let (ka, kb) = trim_window(text, a, e);
            let (va, vb) = trim_window(text, e + 1, b);
            let va2 = skip_front(text, va, vb, CharClass::Exactly('"'));
            let vb2 = skip_back(text, va2, vb, CharClass::Exactly('"'));
            if window_eq(text, ka, kb, &kw.name) {
                let v = string_of(text, va2, vb2);
                Scan { name: Some(v), ..st }
            } else if window_eq(text, ka, kb, &kw.version) {
                let v = string_of(text, va2, vb2);
                Scan { version: Some(v), ..st }
            } else if window_eq(text, ka, kb, &kw.checksum) {
                let v = string_of(text, va2, vb2);
                Scan { checksum: Some(v), ..st }
            } else {
                st
            }
        },
    }
}

/// One line, the window `text[lo..hi]`; `None` where the line has no
/// meaning.
fn scan_line_exec(st: Scan, text: &Vec<char>, lo: usize, hi: usize, kw: &Keywords) -> (r: Option<
    Scan,
>)
    requires
        lo <= hi <= text.len(),
        kw.wf(),
    ensures
        match r {
            Some(n) => scan_line(st@, text@.subrange(lo as int, hi as int)) == Some(n@),
            None => scan_line(st@, text@.subrange(lo as int, hi as int)) is None,
        },
{
    let (a, b) = trim_window(text, lo, hi);
    if window_eq(text, a, b, &kw.header) {
        Some(start_package_exec(st))
    } else if !st.in_package {
        Some(st)
    } else if st.in_deps {
        Some(continue_dependencies_exec(st, text, a, b))
    } else if window_has_prefix(text, a, b, &kw.dependencies) {
        open_dependencies_exec(st, text, a, b)
    } else {
        Some(assign_field_exec(st, text, a, b, kw))
    }
}


/// The number of lines of `lines` that are `[[package]]` headers.
pub open spec fn header_count(lines: Seq<Seq<char>>) -> nat
    decreases lines.len(),
{
    if lines.len() == 0 {
        0
    } else {
        header_count(lines.drop_last()) + if trim(lines.last()) == "[[package]]"@ {
            1nat
        } else {
            0nat
        }
    }
}

proof fn lemma_scan_counts_headers(lines: Seq<Seq<char>>)
    requires
        scan(lines) is Some,
    ensures
        ({
            let st = scan(lines).unwrap();
            &&& st.packages.len() + (if st.in_package {
                1int
            } else {
                0int
            }) <= header_count(lines)
            &&& st.name is Some ==> st.in_package
        }),
    decreases lines.len(),
{
    if lines.len() > 0 {
        lemma_scan_counts_headers(lines.drop_last());
    }
}

/// Law: parsing yields at most one package per `[[package]]` header line.
pub proof fn law_one_package_per_header(s: Seq<char>)
    requires
        parse_defined(s),
    ensures
        parsed_packages(s).len() <= header_count(lock_lines(s)),
{
    lemma_scan_counts_headers(lock_lines(s));
}

proof fn lemma_preamble_initial(pre: Seq<Seq<char>>)
    requires
        forall|i: int| 0 <= i < pre.len() ==> trim(#[trigger] pre[i]) != "[[package]]"@,
    ensures
        scan(pre) == Some(initial_scan()),
    decreases pre.len(),
{
    if pre.len() > 0 {
        lemma_preamble_initial(pre.drop_last());
        assert(trim(pre[pre.len() - 1]) != "[[package]]"@);
    }
}

/// Law: the lines before the first `[[package]]` header (such as the
/// `version = 3` line and comments) have no effect on the parse.
pub proof fn law_preamble_ignored(pre: Seq<Seq<char>>, lines: Seq<Seq<char>>)
    requires
        forall|i: int| 0 <= i < pre.len() ==> trim(#[trigger] pre[i]) != "[[package]]"@,
    ensures
        scan(pre + lines) == scan(lines),
    decreases lines.len(),
{
    if lines.len() == 0 {
        assert(pre + lines =~= pre);
        lemma_preamble_initial(pre);
    } else {
        law_preamble_ignored(pre, lines.drop_last());
        assert((pre + lines).drop_last() =~= pre + lines.drop_last());
        assert((pre + lines).last() == lines.last());
    }
}

/// The list between brackets is read back whole: `[` + `x` + `]` gives
/// `x` when `x` holds no bracket.
proof fn lemma_bracket_inner(x: Seq<char>)
    requires
        !x.contains('['),
        !x.contains(']'),
    ensures
        bracket_inner(seq!['['] + x + seq![']']) == x,
{
    let b = seq!['['] + x + seq![']'];
    let xc = x + seq![']'];
    assert(b.drop_first() =~= xc);
    assert(b[0] == '[');
    assert(strip_front(b, CharClass::Exactly('[')) == strip_front(xc, CharClass::Exactly('[')));
    if x.len() > 0 {
        assert(xc[0] == x[0]);
        assert(x[0] != '[');
    } else {
        assert(xc[0] == ']');
    }
    assert(strip_front(xc, CharClass::Exactly('[')) == xc);
    assert(xc.drop_last() =~= x);
    assert(xc.last() == ']');
    assert(strip_back(xc, CharClass::Exactly(']')) == strip_back(x, CharClass::Exactly(']')));
    if x.len() > 0 {
        assert(x.last() == x[x.len() - 1]);
        assert(x.last() != ']');
    }
    assert(strip_back(x, CharClass::Exactly(']')) == x);
}

/// A text that neither begins nor ends with white space is its own trim.
proof fn lemma_trim_fixed(t: Seq<char>)
    requires
        t.len() > 0,
        !crate::text::is_white_space(t[0]),
        !crate::text::is_white_space(t.last()),
    ensures
        trim(t) == t,
{
}

/// `dependencies = [` + `x` + `]` on one line sets the dependencies to
/// the list `x`.
proof fn lemma_one_line_list(st: ScanModel, x: Seq<char>)
    requires
        st.in_package,
        !st.in_deps,
        !x.contains('['),
        !x.contains(']'),
    ensures
        scan_line(st, "dependencies = ["@ + x + "]"@) matches Some(r) && r == (ScanModel {
            deps: dependency_list(x),
            buffer: r.buffer,
            ..st
        }),
{
    reveal_strlit("dependencies = [");
    reveal_strlit("]");
    reveal_strlit("[[package]]");
    reveal_strlit("dependencies");
    let open = "dependencies = ["@;
    let line = open + x + "]"@;
    let k: int = x.len() as int;
    assert(line.len() == 17 + k);
    assert(line[0] == 'd');
    assert(line.last() == ']');
    lemma_trim_fixed(line);
    assert(line[0] != "[[package]]"@[0]);
    assert(line.subrange(0, 12) =~= "dependencies"@);
    assert(line[15] == '[');
    assert(line[16 + k] == ']');
    assert forall|j: int| 0 <= j < 15 implies line[j] != '[' by {
        assert(line[j] == open[j]);
    }
    crate::text::lemma_first_pos_unique(line, '[', 15);
    assert forall|j: int| 15 < j < 16 + k implies line[j] != ']' by {
        if j > 15 {
            assert(line[j] == x[j - 16]);
        }
    }
    crate::text::lemma_last_pos_unique(line, ']', 16 + k);
    assert(line.subrange(16, 16 + k) =~= x);
    assert(line.skip(15) =~= seq!['['] + x + seq![']']);
    lemma_bracket_inner(x);
    assert((seq!['['] + x + seq![']'])[k + 1] == ']');
}

/// `dependencies = [`, then `x`, then `]`, on three lines, set the
/// dependencies to the list `x` and leave the list closed.
proof fn lemma_three_line_list(st: ScanModel, x: Seq<char>)
    requires
        st.in_package,
        !st.in_deps,
        !x.contains('['),
        !x.contains(']'),
        trim(x) == x,
    ensures
        ({
            let s1 = scan_line(st, "dependencies = ["@).unwrap();
            let s2 = scan_line(s1, x).unwrap();
            &&& scan_line(st, "dependencies = ["@) is Some
            &&& scan_line(s1, x) is Some
            &&& scan_line(s2, "]"@) == Some(ScanModel {
                deps: dependency_list(x),
                in_deps: false,
                buffer: Seq::empty(),
                ..st
            })
        }),
{
    reveal_strlit("dependencies = [");
    reveal_strlit("]");
    reveal_strlit("[[package]]");
    reveal_strlit("dependencies");
    let open = "dependencies = ["@;
    let close = "]"@;
    lemma_trim_fixed(open);
    lemma_trim_fixed(close);
    assert(open[0] != "[[package]]"@[0]);
    assert(open.subrange(0, 12) =~= "dependencies"@);
    assert forall|j: int| 0 <= j < open.len() implies open[j] != ']' by {}
    assert(open[15] == '[');
    assert forall|j: int| 0 <= j < 15 implies open[j] != '[' by {}
    crate::text::lemma_first_pos_unique(open, '[', 15);
    assert(open.skip(15) =~= seq!['[']);
    assert(seq!['['][0] != ']');
    let s1 = scan_line(st, open).unwrap();
    assert(s1 == ScanModel { in_deps: true, buffer: seq!['['], ..st });
    assert(x != "[[package]]"@) by {
        if x == "[[package]]"@ {
            assert(x[0] == '[');
        }
    }
    let s2 = scan_line(s1, x).unwrap();
    assert(s2 == ScanModel { in_deps: true, buffer: seq!['['] + x, ..st });
    assert(close[0] == ']');
    assert(close != "[[package]]"@);
    assert(s2.buffer + close =~= seq!['['] + x + seq![']']);
    lemma_bracket_inner(x);
}

/// Law: a dependency list written on one line, `dependencies = [x]`, and
/// the same list spread over three lines, `dependencies = [`, `x` and
/// `]`, give the parser the same state (but for the buffer of a
/// multi-line list, which is then empty and unused), for any list text
/// `x` without brackets and without surrounding white space, read inside
/// a package.
pub proof fn law_one_line_and_multi_line_lists_agree(st: ScanModel, x: Seq<char>)
    requires
        st.in_package,
        !st.in_deps,
        !x.contains('['),
        !x.contains(']'),
        trim(x) == x,
    ensures
        ({
            let one = scan_line(st, "dependencies = ["@ + x + "]"@);
            let multi = match scan_line(st, "dependencies = ["@) {
                Some(s1) => match scan_line(s1, x) {
                    Some(s2) => scan_line(s2, "]"@),
                    None => None,
                },
                None => None,
            };
            &&& one is Some
            &&& multi is Some
            &&& one.unwrap().deps == dependency_list(x)
            &&& multi.unwrap() == ScanModel { buffer: Seq::empty(), ..one.unwrap() }
        }),
{
    lemma_one_line_list(st, x);
    lemma_three_line_list(st, x);
}

/// The lines of `ls` that mean something: each trimmed, the empty ones
/// left out.
pub open spec fn meaningful_lines(ls: Seq<Seq<char>>) -> Seq<Seq<char>> {
    keep_nonempty(ls.map_values(|l: Seq<char>| trim(l)))
}

/// A line that is empty once trimmed changes nothing.
proof fn lemma_blank_line(st: ScanModel, line: Seq<char>)
    requires
        trim(line).len() == 0,
    ensures
        scan_line(st, line) == Some(st),
{
    reveal_strlit("[[package]]");
    reveal_strlit("dependencies");
    let t = trim(line);
    assert(t != "[[package]]"@);
    assert(!has_prefix(t, "dependencies"@));
    assert(!t.contains(']'));
    assert(!t.contains('='));
    assert(st.buffer + t =~= st.buffer);
}

/// A line and its trimmed form have the same effect.
proof fn lemma_trimmed_line(st: ScanModel, line: Seq<char>)
    ensures
        scan_line(st, trim(line)) == scan_line(st, line),
{
    crate::text::lemma_trim_idempotent(line);
}

proof fn lemma_scan_meaningful(ls: Seq<Seq<char>>)
    ensures
        scan(ls) == scan(meaningful_lines(ls)),
    decreases ls.len(),
{
    if ls.len() == 0 {
        assert(meaningful_lines(ls) =~= Seq::<Seq<char>>::empty());
    } else {
        let rest = ls.drop_last();
        lemma_scan_meaningful(rest);
        let m = ls.map_values(|l: Seq<char>| trim(l));
        assert(m.drop_last() =~= rest.map_values(|l: Seq<char>| trim(l)));
        assert(m.last() == trim(ls.last()));
        match scan(rest) {
            Some(st) => {
                if trim(ls.last()).len() > 0 {
                    let mm = meaningful_lines(ls);
                    assert(mm.drop_last() == meaningful_lines(rest));
                    assert(mm.last() == trim(ls.last()));
                    lemma_trimmed_line(st, ls.last());
                } else {
                    lemma_blank_line(st, ls.last());
                }
            },
            None => {
                if trim(ls.last()).len() > 0 {
                    let mm = meaningful_lines(ls);
                    assert(mm.drop_last() == meaningful_lines(rest));
                }
            },
        }
    }
}

/// Law: indentation, trailing blanks, `\r\n` line ends and empty lines do
/// not matter: two texts whose lines, trimmed and without the empty ones,
/// are the same parse alike.
pub proof fn law_trimmed_lines(s: Seq<char>, t: Seq<char>)
    requires
        meaningful_lines(lock_lines(s)) == meaningful_lines(lock_lines(t)),
    ensures
        scan(lock_lines(s)) == scan(lock_lines(t)),
        parse_defined(s) == parse_defined(t),
        parse_defined(s) ==> parsed_packages(s) == parsed_packages(t),
{
    lemma_scan_meaningful(lock_lines(s));
    lemma_scan_meaningful(lock_lines(t));
}

/// Lines inside a package that open no dependency list and start no new
/// package leave the dependency list and the completed packages as they
/// are.
proof fn lemma_plain_lines_keep_dependencies(pre: Seq<Seq<char>>, ls: Seq<Seq<char>>)
    requires
        scan(pre) is Some,
        scan(pre).unwrap().in_package,
        !scan(pre).unwrap().in_deps,
        forall|i: int|
            0 <= i < ls.len() ==> !has_prefix(trim(#[trigger] ls[i]), "dependencies"@) && trim(
                ls[i],
            ) != "[[package]]"@,
    ensures
        scan(pre + ls) is Some,
        scan(pre + ls).unwrap().in_package,
        !scan(pre + ls).unwrap().in_deps,
        scan(pre + ls).unwrap().deps == scan(pre).unwrap().deps,
        scan(pre + ls).unwrap().packages == scan(pre).unwrap().packages,
    decreases ls.len(),
{
    if ls.len() == 0 {
        assert(pre + ls =~= pre);
    } else {
        lemma_plain_lines_keep_dependencies(pre, ls.drop_last());
        assert((pre + ls).drop_last() =~= pre + ls.drop_last());
        assert((pre + ls).last() == ls[ls.len() - 1]);
    }
}

/// Law: a `[[package]]` header that completes an entry (one with a name
/// and a version) records that entry with the dependencies read for it,
/// and the next entry starts with no dependencies: as long as no
/// `dependencies` line follows, the packages that come out after the
/// completed ones have empty dependency lists, whatever earlier entries
/// listed.
pub proof fn law_new_entry_starts_without_dependencies(
    pre: Seq<Seq<char>>,
    header: Seq<char>,
    ls: Seq<Seq<char>>,
)
    requires
        scan(pre) is Some,
        scan(pre).unwrap().name is Some,
        scan(pre).unwrap().version is Some,
        trim(header) == "[[package]]"@,
        forall|i: int|
            0 <= i < ls.len() ==> !has_prefix(trim(#[trigger] ls[i]), "dependencies"@) && trim(
                ls[i],
            ) != "[[package]]"@,
    ensures
        ({
            let st = scan(pre).unwrap();
            let all = pre.push(header) + ls;
            &&& scan(all) is Some
            &&& scan(all).unwrap().deps.len() == 0
            &&& scan(all).unwrap().packages == st.packages.push(
                PackageModel {
                    name: st.name.unwrap(),
                    version: st.version.unwrap(),
                    checksum: st.checksum,
                    dependencies: st.deps,
                },
            )
            &&& forall|i: int|
                st.packages.len() < i < finish(scan(all).unwrap()).len() ==> (#[trigger] finish(
                    scan(all).unwrap(),
                )[i]).dependencies.len() == 0
        }),
{
    let st = scan(pre).unwrap();
    let pre1 = pre.push(header);
    assert(pre1.drop_last() =~= pre);
    assert(pre1.last() == header);
    let s1 = scan(pre1).unwrap();
    assert(s1.deps.len() == 0);
    lemma_plain_lines_keep_dependencies(pre1, ls);
}

/// A run that stops on some lines stops on any continuation of them.
proof fn lemma_scan_none_extends(ls: Seq<Seq<char>>, ms: Seq<Seq<char>>)
    requires
        ls.len() <= ms.len(),
        ls == ms.take(ls.len() as int),
        scan(ls) is None,
    ensures
        scan(ms) is None,
    decreases ms.len(),
{
    if ls.len() < ms.len() {
        assert(ls =~= ms.drop_last().take(ls.len() as int));
        lemma_scan_none_extends(ls, ms.drop_last());
    } else {
        assert(ls =~= ms);
    }
}

fn finish_exec(st: Scan) -> (r: Vec<Package>)
    ensures
        package_views(r@) == finish(st@),
{
    let ghost old_st = st@;
    let Scan { mut packages, name, version, checksum, deps, .. } = st;
    if name.is_some() && version.is_some() {
        let ghost pv = package_views(packages@);
        let p = Package {
            name: name.unwrap(),
            version: version.unwrap(),
            checksum,
            dependencies: deps,
        };
        packages.push(p);
        assert(package_views(packages@) =~= pv.push(p@));
    }
    packages
}

/// Runs the parser over `content`; `None` exactly where the text has no
/// parse.
fn scan_text(content: &str) -> (r: Option<Vec<Package>>)
    ensures
        (r is Some) == parse_defined(content@),
        r matches Some(ps) ==> package_views(ps@) == parsed_packages(content@),
{
    let kw = Keywords::new();
    let text = chars_of(content);
    let n = text.len();
    let mut st = Scan {
        packages: Vec::new(),
        name: None,
        version: None,
        checksum: None,
        deps: Vec::new(),
        in_package: false,
        in_deps: false,
        buffer: Vec::new(),
    };
    proof {
        assert(text@.subrange(0, 0) =~= Seq::<char>::empty());
        assert(split_on(text@.subrange(0, 0), '\n').drop_last() =~= Seq::<Seq<char>>::empty());
        assert(st@ == initial_scan()) by {
            assert(st@.packages =~= Seq::<PackageModel>::empty());
            assert(st@.deps =~= Seq::<Seq<char>>::empty());
            assert(st@.buffer =~= Seq::<char>::empty());
        }
    }
    let mut start: usize = 0;
    let mut i: usize = 0;
    while i < n
        invariant
            start <= i <= n == text.len(),
            kw.wf(),
            text@ == content@,
            split_on(text@.subrange(0, i as int), '\n').last() == text@.subrange(
                start as int,
                i as int,
            ),
            scan(split_on(text@.subrange(0, i as int), '\n').drop_last()) == Some(st@),
        decreases n - i,
    {
        let ghost parts = split_on(text@.subrange(0, i as int), '\n');
        proof {
            lemma_split_on_extend(text@, 0, i as int, '\n');
            lemma_split_on_nonempty(text@.subrange(0, i as int), '\n');
            assert(parts.drop_last().push(parts.last()) =~= parts);
        }
        if text[i] == '\n' {
            assert(parts.push(Seq::empty()).drop_last() =~= parts);
            match scan_line_exec(st, &text, start, i, &kw) {
                Some(next) => {
                    st = next;
                },
                None => {
                    proof {
                        let full = split_on(text@.subrange(0, n as int), '\n');
                        lemma_split_on_prefix(text@, i + 1, n as int, '\n');
                        lemma_split_on_nonempty(text@.subrange(0, n as int), '\n');
                        assert(text@.subrange(0, n as int) =~= content@);
                        assert(parts == full.take(parts.len() as int));
                        lemma_scan_none_extends(parts, full);
                        if full.last().len() == 0 {
                            assert(parts == full.drop_last().take(parts.len() as int));
                            lemma_scan_none_extends(parts, full.drop_last());
                        }
                    }
                    return None;
                },
            }
            start = i + 1;
            assert(text@.subrange(start as int, (i + 1) as int) =~= Seq::<char>::empty());
        } else {
            proof {
                let np = parts.update(parts.len() - 1, parts.last().push(text@[i as int]));
                assert(np.drop_last() =~= parts.drop_last());
                assert(np.last() =~= text@.subrange(start as int, (i + 1) as int));
            }
        }
        i = i + 1;
    }
    let ghost parts = split_on(text@.subrange(0, n as int), '\n');
    proof {
        assert(text@.subrange(0, n as int) =~= content@);
        lemma_split_on_nonempty(text@.subrange(0, n as int), '\n');
        assert(parts.drop_last().push(parts.last()) =~= parts);
    }
    if start < n {
        match scan_line_exec(st, &text, start, n, &kw) {
            Some(next) => Some(finish_exec(next)),
            None => None,
        }
    } else {
        Some(finish_exec(st))
    }
}

/// Why a lockfile has no parse.
#[derive(Debug, Clone, Copy, PartialEq, Eq)]
pub enum ParseError {
    /// A one-line dependency list (one that holds `[`, `]` and two double
    /// quotes), read inside a package, has its last `]` before its first
    /// `[`, so that the text between them is not defined.
    MisorderedBrackets,
}

impl ParseError {
    /// The error's message.
    pub fn message(&self) -> (r: String)
        ensures
            r@ == "dependency list has its `]` before its `[`"@,
    {
        "dependency list has its `]` before its `[`".to_owned()
    }
}

/// Parses Cargo.lock v3 format and returns the list of packages, in the
/// order of their `[[package]]` headers. An entry is kept when it has both
/// a `name` and a `version`; its checksum and dependency list are the last
/// ones read since the previous entry that was kept. Any text is accepted:
/// the one text that has no parse (see [`ParseError`]) gives an error.
pub fn parse_cargo_lock(content: &str) -> (r: Result<Vec<Package>, ParseError>)
    ensures
        (r is Ok) == parse_defined(content@),
        r matches Ok(ps) ==> package_views(ps@) == parsed_packages(content@),
        r is Err ==> r == Err::<Vec<Package>, ParseError>(ParseError::MisorderedBrackets),
{
    match scan_text(content) {
        Some(ps) => Ok(ps),
        None => Err(ParseError::MisorderedBrackets),
    }
}

} // verus!
