//! File paths as text: how they are split into components, compared,
//! joined and shown, with the rules of `std::path` on Unix and on Windows.
use vstd::prelude::*;

use crate::text::{chars_eq, chars_of, split_by, split_chars};

verus! {

/// The operating systems whose path and library naming rules are known.
#[derive(Debug, Clone, Copy, PartialEq, Eq, Structural)]
pub enum Platform {
    /// `/` separates components; shared objects are named `lib<name>.so`.
    Linux,
    /// `\` and `/` separate components, paths may start with a prefix such
    /// as `C:` or `\\server\share`; libraries are named `<name>.dll`.
    Windows,
}

/// `c` separates path components on Windows.
pub open spec fn is_win_sep(c: char) -> bool {
    c == '/' || c == '\\'
}

/// `c` separates path components on `platform`.
pub open spec fn is_separator(platform: Platform, c: char) -> bool {
    match platform {
        Platform::Linux => c == '/',
        Platform::Windows => is_win_sep(c),
    }
}

/// The separators of the components after a prefix: on Windows only `\`
/// after a verbatim (`\\?\`) prefix, `\` and `/` otherwise.
pub open spec fn separators(platform: Platform, verbatim: bool) -> Seq<char> {
    match platform {
        Platform::Linux => seq!['/'],
        Platform::Windows => if verbatim {
            seq!['\\']
        } else {
            seq!['/', '\\']
        },
    }
}

/// Index of the first character of `s` at or after `from` that is one of
/// `seps`, or the length of `s` when there is none.
pub open spec fn sep_index(s: Seq<char>, from: int, seps: Seq<char>) -> int
    decreases s.len() - from,
{
    if from >= s.len() {
        s.len() as int
    } else if seps.contains(s[from]) {
        from
    } else {
        sep_index(s, from + 1, seps)
    }
}

pub open spec fn is_ascii_letter(c: char) -> bool {
    ('A' <= c && c <= 'Z') || ('a' <= c && c <= 'z')
}

/// The code of the uppercase form of an ASCII letter.
pub open spec fn upper_code(c: char) -> int {
    if 'a' <= c && c <= 'z' {
        (c as int) - 32
    } else {
        c as int
    }
}

/// The kinds of prefix a Windows path can start with.
#[derive(Debug, Clone, Copy, PartialEq, Eq, Structural)]
pub enum PrefixKind {
    /// No prefix (always so on Unix).
    NoPrefix,
    /// `\\?\name`
    Verbatim,
    /// `\\?\UNC\server\share`
    VerbatimUnc,
    /// `\\?\C:`
    VerbatimDisk,
    /// `\\.\name`
    DeviceNs,
    /// `\\server\share`
    Unc,
    /// `C:`
    Disk,
}

pub open spec fn is_verbatim(kind: PrefixKind) -> bool {
    kind == PrefixKind::Verbatim || kind == PrefixKind::VerbatimUnc || kind
        == PrefixKind::VerbatimDisk
}

/// A parsed path prefix: its kind, the drive letter's uppercase code for the
/// disk kinds, the name (or server and share) for the others, and the number
/// of characters it takes up.
pub struct PathPrefix {
    pub kind: PrefixKind,
    pub drive: int,
    pub first: Seq<char>,
    pub second: Seq<char>,
    pub len: int,
}

pub open spec fn no_prefix() -> PathPrefix {
    PathPrefix {
        kind: PrefixKind::NoPrefix,
        drive: 0,
        first: Seq::empty(),
        second: Seq::empty(),
        len: 0,
    }
}

/// The prefix of a Windows path, as `std` parses it: after a leading pair of
/// separators, `?\` (written with `\` only) starts a verbatim prefix
/// (`UNC\server\share`, a drive `C:` followed by a separator or nothing, or
/// a name), `.\` a device name, anything else a `server\share` pair when both are
/// non-empty; otherwise a letter and `:` form a drive prefix.  Within the
/// first eight characters `/` counts as `\` when the prefix keywords are
/// matched.
pub open spec fn win_prefix(s: Seq<char>) -> PathPrefix {
    let n = s.len() as int;
    let bs = seq!['\\'];
    let ws = seq!['/', '\\'];
    if n >= 2 && is_win_sep(s[0]) && is_win_sep(s[1]) {
        if n >= 4 && s[0] == '\\' && s[1] == '\\' && s[2] == '?' && s[3] == '\\' {
            if n >= 8 && s[4] == 'U' && s[5] == 'N' && s[6] == 'C' && is_win_sep(s[7]) {
                let i1 = sep_index(s, 8, bs);
                let server = s.subrange(8, i1);
                if i1 < n {
                    let i2 = sep_index(s, i1 + 1, bs);
                    let share = s.subrange(i1 + 1, i2);
                    PathPrefix {
                        kind: PrefixKind::VerbatimUnc,
                        drive: 0,
                        first: server,
                        second: share,
                        len: if share.len() > 0 {
                            i2
                        } else {
                            i1
                        },
                    }
                } else {
                    PathPrefix {
                        kind: PrefixKind::VerbatimUnc,
                        drive: 0,
                        first: server,
                        second: Seq::empty(),
                        len: i1,
                    }
                }
            } else if n >= 6 && is_ascii_letter(s[4]) && s[5] == ':' && (n == 6 || is_win_sep(s[6])) {
                PathPrefix {
                    kind: PrefixKind::VerbatimDisk,
                    drive: upper_code(s[4]),
                    first: Seq::empty(),
                    second: Seq::empty(),
                    len: 6,
                }
            } else {
                let i = sep_index(s, 4, bs);
                PathPrefix {
                    kind: PrefixKind::Verbatim,
                    drive: 0,
                    first: s.subrange(4, i),
                    second: Seq::empty(),
                    len: i,
                }
            }
        } else if n >= 4 && s[2] == '.' && is_win_sep(s[3]) {
            let i = sep_index(s, 4, ws);
            PathPrefix {
                kind: PrefixKind::DeviceNs,
                drive: 0,
                first: s.subrange(4, i),
                second: Seq::empty(),
                len: i,
            }
        } else {
            let i1 = sep_index(s, 2, ws);
            if i1 > 2 && i1 < n {
                let i2 = sep_index(s, i1 + 1, ws);
                if i2 > i1 + 1 {
                    PathPrefix {
                        kind: PrefixKind::Unc,
                        drive: 0,
                        first: s.subrange(2, i1),
                        second: s.subrange(i1 + 1, i2),
                        len: i2,
                    }
                } else {
                    no_prefix()
                }
            } else {
                no_prefix()
            }
        }
    } else if n >= 2 && is_ascii_letter(s[0]) && s[1] == ':' {
        PathPrefix {
            kind: PrefixKind::Disk,
            drive: upper_code(s[0]),
            first: Seq::empty(),
            second: Seq::empty(),
            len: 2,
        }
    } else {
        no_prefix()
    }
}

/// The prefix of a path on `platform` (Unix paths have none).
pub open spec fn path_prefix(platform: Platform, s: Seq<char>) -> PathPrefix {
    match platform {
        Platform::Linux => no_prefix(),
        Platform::Windows => win_prefix(s),
    }
}

pub proof fn lemma_sep_index_bounds(s: Seq<char>, from: int, seps: Seq<char>)
    requires
        0 <= from,
    ensures
        from <= s.len() ==> from <= sep_index(s, from, seps) <= s.len(),
        from > s.len() ==> sep_index(s, from, seps) == s.len(),
        forall|j: int| from <= j < sep_index(s, from, seps) ==> !seps.contains(#[trigger] s[j]),
        sep_index(s, from, seps) < s.len() ==> seps.contains(s[sep_index(s, from, seps)]),
    decreases s.len() - from,
{
    if from < s.len() && !seps.contains(s[from]) {
        lemma_sep_index_bounds(s, from + 1, seps);
    }
}

proof fn lemma_prefix_len(platform: Platform, s: Seq<char>)
    ensures
        0 <= path_prefix(platform, s).len <= s.len(),
        path_prefix(platform, s).kind == PrefixKind::NoPrefix ==> path_prefix(platform, s).len == 0,
{
    let bs = seq!['\\'];
    let ws = seq!['/', '\\'];
    lemma_sep_index_bounds(s, 8, bs);
    lemma_sep_index_bounds(s, 4, bs);
    lemma_sep_index_bounds(s, 4, ws);
    lemma_sep_index_bounds(s, 2, ws);
    let i1 = sep_index(s, 8, bs);
    lemma_sep_index_bounds(s, i1 + 1, bs);
    let j1 = sep_index(s, 2, ws);
    lemma_sep_index_bounds(s, j1 + 1, ws);
}

/// The index of the first of `seps` in `s` at or after `from`.
fn find_sep(s: &Vec<char>, from: usize, seps: &Vec<char>) -> (r: usize)
    requires
        from <= s.len(),
    ensures
        r == sep_index(s@, from as int, seps@),
{
    let mut i = from;
    while i < s.len() && !crate::text::contains_char(seps, s[i])
        invariant
            from <= i <= s.len(),
            sep_index(s@, from as int, seps@) == sep_index(s@, i as int, seps@),
        decreases s.len() - i,
    {
        i += 1;
    }
    i
}

/// A parsed prefix held in exact values.
pub struct PrefixParts {
    pub kind: PrefixKind,
    pub drive: u32,
    pub first: Vec<char>,
    pub second: Vec<char>,
    pub len: usize,
}

impl PrefixParts {
    pub open spec fn matches(&self, p: PathPrefix) -> bool {
        &&& self.kind == p.kind
        &&& self.drive == p.drive
        &&& self.first@ == p.first
        &&& self.second@ == p.second
        &&& self.len == p.len
    }
}

fn upper_code_of(c: char) -> (r: u32)
    ensures
        r == upper_code(c),
{
    let u = c as u32;
    if 0x61 <= u && u <= 0x7a {
        u - 32
    } else {
        u
    }
}

fn is_win_sep_char(c: char) -> (r: bool)
    ensures
        r == is_win_sep(c),
{
    c == '/' || c == '\\'
}

fn is_ascii_letter_char(c: char) -> (r: bool)
    ensures
        r == is_ascii_letter(c),
{
    ('A' <= c && c <= 'Z') || ('a' <= c && c <= 'z')
}

fn empty_prefix() -> (r: PrefixParts)
    ensures
        r.matches(no_prefix()),
{
    let r = PrefixParts { kind: PrefixKind::NoPrefix, drive: 0, first: Vec::new(), second: Vec::new(), len: 0 };
    assert(r.first@ =~= Seq::<char>::empty());
    r
}

/// The characters of `s` from `from` up to `to`.
fn slice_of(s: &Vec<char>, from: usize, to: usize) -> (r: Vec<char>)
    requires
        from <= to <= s.len(),
    ensures
        r@ == s@.subrange(from as int, to as int),
{
    let mut r: Vec<char> = Vec::new();
    let mut i = from;
    while i < to
        invariant
            from <= i <= to <= s.len(),
            r@ == s@.subrange(from as int, i as int),
        decreases to - i,
    {
        r.push(s[i]);
        i += 1;
        assert(r@ =~= s@.subrange(from as int, i as int));
    }
    r
}

/// Parses the prefix of the path `s` on `platform` (`win_prefix`).
pub fn parse_prefix(s: &Vec<char>, platform: Platform) -> (r: PrefixParts)
    ensures
        r.matches(path_prefix(platform, s@)),
{
    if platform == Platform::Linux {
        return empty_prefix();
    }
    let n = s.len();
    let bs = vec!['\\'];
    let ws = vec!['/', '\\'];
    assert(bs@ =~= seq!['\\']);
    assert(ws@ =~= seq!['/', '\\']);
    if n >= 2 && is_win_sep_char(s[0]) && is_win_sep_char(s[1]) {
        if n >= 4 && s[0] == '\\' && s[1] == '\\' && s[2] == '?' && s[3] == '\\' {
            if n >= 8 && s[4] == 'U' && s[5] == 'N' && s[6] == 'C' && is_win_sep_char(s[7]) {
                let i1 = find_sep(s, 8, &bs);
                proof {
                    lemma_sep_index_bounds(s@, 8, bs@);
                }
                let server = slice_of(s, 8, i1);
                if i1 < n {
                    let i2 = find_sep(s, i1 + 1, &bs);
                    proof {
                        lemma_sep_index_bounds(s@, i1 + 1, bs@);
                    }
                    let share = slice_of(s, i1 + 1, i2);
                    let len = if share.len() > 0 {
                        i2
                    } else {
                        i1
                    };
                    return PrefixParts {
                        kind: PrefixKind::VerbatimUnc,
                        drive: 0,
                        first: server,
                        second: share,
                        len,
                    };
                } else {
                    let r = PrefixParts {
                        kind: PrefixKind::VerbatimUnc,
                        drive: 0,
                        first: server,
                        second: Vec::new(),
                        len: i1,
                    };
                    assert(r.second@ =~= Seq::<char>::empty());
                    return r;
                }
            } else if n >= 6 && is_ascii_letter_char(s[4]) && s[5] == ':' && (n == 6
                || is_win_sep_char(s[6])) {
                let r = PrefixParts {
                    kind: PrefixKind::VerbatimDisk,
                    drive: upper_code_of(s[4]),
                    first: Vec::new(),
                    second: Vec::new(),
                    len: 6,
                };
                assert(r.first@ =~= Seq::<char>::empty());
                return r;
            } else {
                let i = find_sep(s, 4, &bs);
                proof {
                    lemma_sep_index_bounds(s@, 4, bs@);
                }
                let r = PrefixParts {
                    kind: PrefixKind::Verbatim,
                    drive: 0,
                    first: slice_of(s, 4, i),
                    second: Vec::new(),
                    len: i,
                };
                assert(r.second@ =~= Seq::<char>::empty());
                return r;
            }
        } else if n >= 4 && s[2] == '.' && is_win_sep_char(s[3]) {
            let i = find_sep(s, 4, &ws);
            proof {
                lemma_sep_index_bounds(s@, 4, ws@);
            }
            let r = PrefixParts {
                kind: PrefixKind::DeviceNs,
                drive: 0,
                first: slice_of(s, 4, i),
                second: Vec::new(),
                len: i,
            };
            assert(r.second@ =~= Seq::<char>::empty());
            return r;
        } else {
            let i1 = find_sep(s, 2, &ws);
            proof {
                lemma_sep_index_bounds(s@, 2, ws@);
            }
            if i1 > 2 && i1 < n {
                let i2 = find_sep(s, i1 + 1, &ws);
                proof {
                    lemma_sep_index_bounds(s@, i1 + 1, ws@);
                }
                if i2 > i1 + 1 {
                    return PrefixParts {
                        kind: PrefixKind::Unc,
                        drive: 0,
                        first: slice_of(s, 2, i1),
                        second: slice_of(s, i1 + 1, i2),
                        len: i2,
                    };
                }
            }
            return empty_prefix();
        }
    } else if n >= 2 && is_ascii_letter_char(s[0]) && s[1] == ':' {
        let r = PrefixParts {
            kind: PrefixKind::Disk,
            drive: upper_code_of(s[0]),
            first: Vec::new(),
            second: Vec::new(),
            len: 2,
        };
        assert(r.first@ =~= Seq::<char>::empty());
        return r;
    }
    empty_prefix()
}


/// One component of a path, as `std::path::Component` has it; a prefix is
/// held by its parsed parts, which is what `==` compares.
pub enum PathComponent {
    Prefix(PrefixKind, int, Seq<char>, Seq<char>),
    RootDir,
    CurDir,
    ParentDir,
    Normal(Seq<char>),
}

/// The components of the pieces between separators: empty pieces dropped,
/// `..` a parent, `.` dropped (kept as the current directory after a
/// verbatim prefix), any other piece a name.
pub open spec fn body_components(pieces: Seq<Seq<char>>, verbatim: bool) -> Seq<PathComponent>
    decreases pieces.len(),
{
    if pieces.len() == 0 {
        Seq::empty()
    } else {
        let rest = body_components(pieces.drop_last(), verbatim);
        let p = pieces.last();
        if p.len() == 0 {
            rest
        } else if p == seq!['.'] {
            if verbatim {
                rest.push(PathComponent::CurDir)
            } else {
                rest
            }
        } else if p == seq!['.', '.'] {
            rest.push(PathComponent::ParentDir)
        } else {
            rest.push(PathComponent::Normal(p))
        }
    }
}

/// A path without prefix or root that starts with a `.` component.
pub open spec fn starts_at_current_dir(rest: Seq<char>, seps: Seq<char>) -> bool {
    rest == seq!['.'] || (rest.len() >= 2 && rest[0] == '.' && seps.contains(rest[1]))
}

/// The components of the path `s` on `platform` (`Path::components`): the
/// prefix, then the root when the path continues with a separator (or, on
/// Windows, after a non-disk, non-verbatim prefix), or a leading `.` of a
/// path with neither, then the components of the rest.
pub open spec fn path_components(platform: Platform, s: Seq<char>) -> Seq<PathComponent> {
    let p = path_prefix(platform, s);
    let verbatim = is_verbatim(p.kind);
    let seps = separators(platform, verbatim);
    let rest = s.skip(p.len);
    let head: Seq<PathComponent> = if p.kind == PrefixKind::NoPrefix {
        Seq::empty()
    } else {
        seq![PathComponent::Prefix(p.kind, p.drive, p.first, p.second)]
    };
    if rest.len() > 0 && is_separator(platform, rest[0]) {
        head.push(PathComponent::RootDir) + body_components(split_by(rest.skip(1), seps), verbatim)
    } else if p.kind != PrefixKind::NoPrefix {
        (if p.kind != PrefixKind::Disk && !verbatim {
            head.push(PathComponent::RootDir)
        } else {
            head
        }) + body_components(split_by(rest, seps), verbatim)
    } else if starts_at_current_dir(rest, seps) {
        seq![PathComponent::CurDir] + body_components(split_by(rest.skip(1), seps), verbatim)
    } else {
        body_components(split_by(rest, seps), verbatim)
    }
}

/// Two paths name the same place as `==` on `Path` decides on `platform`:
/// their components are equal.
pub open spec fn same_path(platform: Platform, a: Seq<char>, b: Seq<char>) -> bool {
    path_components(platform, a) == path_components(platform, b)
}

/// `s` starts with a drive such as `C:`: an ASCII letter and a colon.
pub open spec fn starts_with_drive(s: Seq<char>) -> bool {
    s.len() >= 2 && is_ascii_letter(s[0]) && s[1] == ':'
}

/// Two ASCII letters that are the same letter, whatever their case.
pub open spec fn same_letter(a: char, b: char) -> bool {
    a == b || (a as int) - (b as int) == 32 || (b as int) - (a as int) == 32
}

/// On Windows, two paths that start with drives are the same path only when
/// the drives are the same letter (in either case): `C:\a` and `D:\a` are
/// different paths.
pub proof fn lemma_windows_drives_differ(a: Seq<char>, b: Seq<char>)
    requires
        starts_with_drive(a),
        starts_with_drive(b),
        same_path(Platform::Windows, a, b),
    ensures
        same_letter(a[0], b[0]),
{
    let ca = path_components(Platform::Windows, a);
    let cb = path_components(Platform::Windows, b);
    assert(ca[0] == PathComponent::Prefix(PrefixKind::Disk, upper_code(a[0]), Seq::empty(), Seq::empty()));
    assert(cb[0] == PathComponent::Prefix(PrefixKind::Disk, upper_code(b[0]), Seq::empty(), Seq::empty()));
}

/// On Windows the case of a drive letter does not matter: two paths that
/// start with the same drive letter, in either case, and go on with the same
/// characters are the same path (`C:\a` and `c:\a`).
pub proof fn lemma_windows_drive_case(a: Seq<char>, b: Seq<char>)
    requires
        starts_with_drive(a),
        starts_with_drive(b),
        same_letter(a[0], b[0]),
        a.skip(1) == b.skip(1),
    ensures
        same_path(Platform::Windows, a, b),
{
    assert(a.skip(1).len() == a.len() - 1);
    assert(b.skip(1).len() == b.len() - 1);
    assert(a.len() == b.len());
    assert forall|i: int| 0 <= i < a.len() - 2 implies a.skip(2)[i] == b.skip(2)[i] by {
        assert(a.skip(2)[i] == a.skip(1)[i + 1]);
        assert(b.skip(2)[i] == b.skip(1)[i + 1]);
    }
    assert(a.skip(2) =~= b.skip(2));
    assert(upper_code(a[0]) == upper_code(b[0]));
}

/// A path component held in exact values.
pub enum PathPart {
    Prefix(PrefixKind, u32, Vec<char>, Vec<char>),
    RootDir,
    CurDir,
    ParentDir,
    Normal(Vec<char>),
}

impl PathPart {
    pub open spec fn model(&self) -> PathComponent {
        match self {
            PathPart::Prefix(k, d, f, s) => PathComponent::Prefix(*k, *d as int, f@, s@),
            PathPart::RootDir => PathComponent::RootDir,
            PathPart::CurDir => PathComponent::CurDir,
            PathPart::ParentDir => PathComponent::ParentDir,
            PathPart::Normal(x) => PathComponent::Normal(x@),
        }
    }
}

pub open spec fn models(parts: Seq<PathPart>) -> Seq<PathComponent> {
    parts.map_values(|p: PathPart| p.model())
}

fn verbatim_kind(kind: PrefixKind) -> (r: bool)
    ensures
        r == is_verbatim(kind),
{
    kind == PrefixKind::Verbatim || kind == PrefixKind::VerbatimUnc || kind
        == PrefixKind::VerbatimDisk
}

fn separator_chars(platform: Platform, verbatim: bool) -> (r: Vec<char>)
    ensures
        r@ == separators(platform, verbatim),
{
    let r = match platform {
        Platform::Linux => vec!['/'],
        Platform::Windows => if verbatim {
            vec!['\\']
        } else {
            vec!['/', '\\']
        },
    };
    assert(r@ =~= separators(platform, verbatim));
    r
}

/// Appends the components of `pieces` to `parts` (`body_components`).
fn push_body(
    parts: &mut Vec<PathPart>,
    pieces: &Vec<Vec<char>>,
    Ghost(all): Ghost<Seq<Seq<char>>>,
    verbatim: bool,
)
    requires
        pieces@.len() == all.len(),
        forall|k: int| 0 <= k < all.len() ==> (#[trigger] pieces@[k])@ == all[k],
    ensures
        models(final(parts)@) == models(old(parts)@) + body_components(all, verbatim),
{
    let ghost start = models(parts@);
    let n = pieces.len();
    let dot = vec!['.'];
    let dotdot = vec!['.', '.'];
    assert(dot@ =~= seq!['.']);
    assert(dotdot@ =~= seq!['.', '.']);
    assert(all.take(0) =~= Seq::<Seq<char>>::empty());
    assert(models(parts@) =~= start + body_components(all.take(0), verbatim));
    for i in 0..n
        invariant
            n == pieces@.len() == all.len(),
            forall|k: int| 0 <= k < all.len() ==> (#[trigger] pieces@[k])@ == all[k],
            dot@ == seq!['.'],
            dotdot@ == seq!['.', '.'],
            models(parts@) == start + body_components(all.take(i as int), verbatim),
    {
        assert(all.take(i + 1).drop_last() =~= all.take(i as int));
        assert(all.take(i + 1).last() == all[i as int]);
        let ghost before = parts@;
        let piece = &pieces[i];
        if piece.len() == 0 {
        } else if chars_eq(piece, &dot) {
            if verbatim {
                parts.push(PathPart::CurDir);
                assert(models(parts@) =~= models(before).push(PathComponent::CurDir));
            }
        } else if chars_eq(piece, &dotdot) {
            parts.push(PathPart::ParentDir);
            assert(models(parts@) =~= models(before).push(PathComponent::ParentDir));
        } else {
            parts.push(PathPart::Normal(piece.clone()));
            assert(models(parts@) =~= models(before).push(PathComponent::Normal(all[i as int])));
        }
    }
    assert(all.take(n as int) =~= all);
}

/// The components of the path `s` on `platform` (`Path::components`).
pub fn components_of(s: &Vec<char>, platform: Platform) -> (r: Vec<PathPart>)
    ensures
        models(r@) == path_components(platform, s@),
{
    let ghost p = path_prefix(platform, s@);
    proof {
        lemma_prefix_len(platform, s@);
    }
    let prefix = parse_prefix(s, platform);
    let kind = prefix.kind;
    let verbatim = verbatim_kind(kind);
    let seps = separator_chars(platform, verbatim);
    let rest = slice_of(s, prefix.len, s.len());
    assert(rest@ =~= s@.skip(p.len));
    let mut parts: Vec<PathPart> = Vec::new();
    if kind != PrefixKind::NoPrefix {
        parts.push(PathPart::Prefix(prefix.kind, prefix.drive, prefix.first, prefix.second));
    }
    let ghost head = models(parts@);
    assert(head =~= (if p.kind == PrefixKind::NoPrefix {
        Seq::<PathComponent>::empty()
    } else {
        seq![PathComponent::Prefix(p.kind, p.drive, p.first, p.second)]
    }));
    let first_is_sep = rest.len() > 0 && (match platform {
        Platform::Linux => rest[0] == '/',
        Platform::Windows => is_win_sep_char(rest[0]),
    });
    let body;
    if first_is_sep {
        parts.push(PathPart::RootDir);
        assert(models(parts@) =~= head.push(PathComponent::RootDir));
        body = slice_of(&rest, 1, rest.len());
    } else if kind != PrefixKind::NoPrefix {
        if kind != PrefixKind::Disk && !verbatim {
            parts.push(PathPart::RootDir);
            assert(models(parts@) =~= head.push(PathComponent::RootDir));
        }
        body = slice_of(&rest, 0, rest.len());
    } else {
        let dot_start = rest.len() > 0 && rest[0] == '.' && (rest.len() == 1
            || crate::text::contains_char(&seps, rest[1]));
        assert(dot_start == starts_at_current_dir(rest@, seps@)) by {
            if rest@.len() == 1 && rest@[0] == '.' {
                assert(rest@ =~= seq!['.']);
            }
        }
        if dot_start {
            parts.push(PathPart::CurDir);
            assert(models(parts@) =~= seq![PathComponent::CurDir]);
            body = slice_of(&rest, 1, rest.len());
        } else {
            body = slice_of(&rest, 0, rest.len());
        }
    }
    let pieces = split_chars(&body, &seps);
    push_body(&mut parts, &pieces, Ghost(split_by(body@, seps@)), verbatim);
    proof {
        assert(rest@.skip(1) =~= rest@.subrange(1, rest@.len() as int));
        assert(rest@ =~= rest@.subrange(0, rest@.len() as int));
    }
    parts
}

fn part_eq(x: &PathPart, y: &PathPart) -> (r: bool)
    ensures
        r == (x.model() == y.model()),
{
    match (x, y) {
        (PathPart::Prefix(k1, d1, f1, s1), PathPart::Prefix(k2, d2, f2, s2)) => {
            *k1 == *k2 && *d1 == *d2 && chars_eq(f1, f2) && chars_eq(s1, s2)
        },
        (PathPart::RootDir, PathPart::RootDir) => true,
        (PathPart::CurDir, PathPart::CurDir) => true,
        (PathPart::ParentDir, PathPart::ParentDir) => true,
        (PathPart::Normal(a), PathPart::Normal(b)) => chars_eq(a, b),
        _ => false,
    }
}

/// Whether the paths `a` and `b` name the same place on `platform` (`==`
/// on `Path`).
pub fn paths_equal(a: &str, b: &str, platform: Platform) -> (r: bool)
    ensures
        r == same_path(platform, a@, b@),
{
    let ca = components_of(&chars_of(a), platform);
    let cb = components_of(&chars_of(b), platform);
    let ghost ma = models(ca@);
    let ghost mb = models(cb@);
    if ca.len() != cb.len() {
        assert(ma.len() != mb.len());
        return false;
    }
    let n = ca.len();
    for i in 0..n
        invariant
            n == ca@.len() == cb@.len(),
            ma == models(ca@),
            mb == models(cb@),
            ma == path_components(platform, a@),
            mb == path_components(platform, b@),
            forall|k: int| 0 <= k < i ==> ma[k] == mb[k],
    {
        if !part_eq(&ca[i], &cb[i]) {
            assert(ma[i as int] != mb[i as int]);
            return false;
        }
    }
    assert(ma =~= mb);
    true
}

/// The text of a component as `Component::as_os_str` gives it on Windows;
/// `raw` is the text of the prefix.
pub open spec fn component_text(c: PathComponent, raw: Seq<char>) -> Seq<char> {
    match c {
        PathComponent::Prefix(..) => raw,
        PathComponent::RootDir => seq!['\\'],
        PathComponent::CurDir => seq!['.'],
        PathComponent::ParentDir => seq!['.', '.'],
        PathComponent::Normal(x) => x,
    }
}

/// Whether `\` goes between the component `c` and the next one (other than a
/// root) when components are written out: not after a root or a disk prefix.
pub open spec fn sep_after(c: PathComponent) -> bool {
    match c {
        PathComponent::RootDir => false,
        PathComponent::Prefix(kind, _, _, _) => kind != PrefixKind::Disk,
        _ => true,
    }
}

/// Components written out one after the other, with `\` between two of them
/// where `sep_after` asks for it.
pub open spec fn render_components(cs: Seq<PathComponent>, raw: Seq<char>) -> Seq<char>
    decreases cs.len(),
{
    if cs.len() == 0 {
        Seq::empty()
    } else {
        let before = cs.drop_last();
        let c = cs.last();
        let sep: Seq<char> = if before.len() > 0 && sep_after(before.last()) && !(c is RootDir) {
            seq!['\\']
        } else {
            Seq::empty()
        };
        render_components(before, raw) + sep + component_text(c, raw)
    }
}

/// One component of a pushed path applied to the components of a verbatim
/// path: a root keeps only the prefix, `.` is dropped, `..` removes a
/// preceding name (and is dropped otherwise), anything else is appended.
pub open spec fn verbatim_step(buf: Seq<PathComponent>, c: PathComponent) -> Seq<PathComponent> {
    match c {
        PathComponent::RootDir => (if buf.len() > 1 {
            buf.take(1)
        } else {
            buf
        }).push(PathComponent::RootDir),
        PathComponent::CurDir => buf,
        PathComponent::ParentDir => if buf.len() > 0 && buf.last() is Normal {
            buf.drop_last()
        } else {
            buf
        },
        _ => buf.push(c),
    }
}

/// The components `cs` applied one by one to `buf` (`verbatim_step`).
pub open spec fn verbatim_fold(buf: Seq<PathComponent>, cs: Seq<PathComponent>) -> Seq<
    PathComponent,
>
    decreases cs.len(),
{
    if cs.len() == 0 {
        buf
    } else {
        verbatim_step(verbatim_fold(buf, cs.drop_last()), cs.last())
    }
}

/// `Path::join(base, name)` on `platform`.
///
/// On Unix a name that starts with `/` replaces the base; otherwise `/` is
/// put between the two unless the base is empty or already ends with `/`.
///
/// On Windows a name with a prefix replaces the base; a non-empty name
/// pushed onto a verbatim (`\\?\`) base is applied component by component
/// (`verbatim_fold`) and written out with `\`; a name that starts with a
/// separator keeps only the prefix of the base; otherwise `\` is put between
/// the two unless the base is empty, ends with `\` or `/`, or is a bare
/// drive such as `C:`.
pub open spec fn joined_path(platform: Platform, base: Seq<char>, name: Seq<char>) -> Seq<char> {
    match platform {
        Platform::Linux => if name.len() > 0 && name[0] == '/' {
            name
        } else if base.len() > 0 && base.last() != '/' {
            base + seq!['/'] + name
        } else {
            base + name
        },
        Platform::Windows => {
            let bp = win_prefix(base);
            let need_sep = base.len() > 0 && !is_win_sep(base.last()) && !(bp.kind
                == PrefixKind::Disk && bp.len == base.len());
            if win_prefix(name).kind != PrefixKind::NoPrefix {
                name
            } else if is_verbatim(bp.kind) && name.len() > 0 {
                render_components(
                    verbatim_fold(
                        path_components(Platform::Windows, base),
                        path_components(Platform::Windows, name),
                    ),
                    base.take(bp.len),
                )
            } else if name.len() > 0 && is_win_sep(name[0]) {
                base.take(bp.len) + name
            } else if need_sep {
                base + seq!['\\'] + name
            } else {
                base + name
            }
        },
    }
}

/// `out` followed by the characters of `s`.
fn append_chars(out: &mut Vec<char>, s: &Vec<char>)
    ensures
        final(out)@ == old(out)@ + s@,
{
    let ghost start = out@;
    for i in 0..s.len()
        invariant
            out@ == start + s@.take(i as int),
    {
        out.push(s[i]);
        assert(out@ =~= start + s@.take(i + 1));
    }
    assert(s@.take(s@.len() as int) =~= s@);
}

fn is_normal_part(p: &PathPart) -> (r: bool)
    ensures
        r == p.model() is Normal,
{
    match p {
        PathPart::Normal(_) => true,
        _ => false,
    }
}

fn sep_after_part(p: &PathPart) -> (r: bool)
    ensures
        r == sep_after(p.model()),
{
    match p {
        PathPart::RootDir => false,
        PathPart::Prefix(kind, _, _, _) => *kind != PrefixKind::Disk,
        _ => true,
    }
}

/// The components `parts` written out (`render_components`).
fn render_parts(parts: &Vec<PathPart>, raw: &Vec<char>) -> (r: Vec<char>)
    ensures
        r@ == render_components(models(parts@), raw@),
{
    let ghost cs = models(parts@);
    let mut out: Vec<char> = Vec::new();
    assert(cs.take(0) =~= Seq::<PathComponent>::empty());
    for i in 0..parts.len()
        invariant
            cs == models(parts@),
            out@ == render_components(cs.take(i as int), raw@),
    {
        let ghost before = cs.take(i as int);
        assert(cs.take(i + 1).drop_last() =~= before);
        assert(cs.take(i + 1).last() == parts@[i as int].model());
        let part = &parts[i];
        let root = match part {
            PathPart::RootDir => true,
            _ => false,
        };
        if i > 0 && sep_after_part(&parts[i - 1]) && !root {
            assert(before.last() == parts@[i - 1].model());
            out.push('\\');
        }
        match part {
            PathPart::Prefix(..) => append_chars(&mut out, raw),
            PathPart::RootDir => out.push('\\'),
            PathPart::CurDir => out.push('.'),
            PathPart::ParentDir => {
                out.push('.');
                out.push('.');
            },
            PathPart::Normal(x) => append_chars(&mut out, x),
        }
        assert(out@ =~= render_components(cs.take(i + 1), raw@));
    }
    assert(cs.take(parts@.len() as int) =~= cs);
    out
}

/// The components of `name` applied to those of the verbatim path `base`,
/// written out (`joined_path` for a verbatim base).
fn verbatim_join(base: &Vec<char>, name: &Vec<char>, prefix_len: usize) -> (r: Vec<char>)
    requires
        prefix_len == win_prefix(base@).len,
        prefix_len <= base.len(),
    ensures
        r@ == render_components(
            verbatim_fold(
                path_components(Platform::Windows, base@),
                path_components(Platform::Windows, name@),
            ),
            base@.take(prefix_len as int),
        ),
{
    let mut buf = components_of(base, Platform::Windows);
    let parts = components_of(name, Platform::Windows);
    let ghost start = models(buf@);
    let ghost cs = models(parts@);
    assert(cs.take(0) =~= Seq::<PathComponent>::empty());
    for i in 0..parts.len()
        invariant
            cs == models(parts@),
            models(buf@) == verbatim_fold(start, cs.take(i as int)),
    {
        assert(cs.take(i + 1).drop_last() =~= cs.take(i as int));
        assert(cs.take(i + 1).last() == parts@[i as int].model());
        let ghost before = buf@;
        match &parts[i] {
            PathPart::RootDir => {
                if buf.len() > 1 {
                    buf.truncate(1);
                    assert(models(buf@) =~= models(before).take(1));
                }
                buf.push(PathPart::RootDir);
                assert(models(buf@) =~= verbatim_step(models(before), PathComponent::RootDir));
            },
            PathPart::CurDir => {},
            PathPart::ParentDir => {
                if buf.len() > 0 && is_normal_part(&buf[buf.len() - 1]) {
                    buf.pop();
                    assert(models(buf@) =~= models(before).drop_last());
                }
            },
            PathPart::Normal(x) => {
                buf.push(PathPart::Normal(x.clone()));
                assert(models(buf@) =~= models(before).push(parts@[i as int].model()));
            },
            PathPart::Prefix(k, d, f, g) => {
                buf.push(PathPart::Prefix(*k, *d, f.clone(), g.clone()));
                assert(models(buf@) =~= models(before).push(parts@[i as int].model()));
            },
        }
    }
    assert(cs.take(parts@.len() as int) =~= cs);
    let raw = slice_of(base, 0, prefix_len);
    assert(raw@ =~= base@.take(prefix_len as int));
    render_parts(&buf, &raw)
}

/// `Path::join(base, name)` on `platform`, in characters (`joined_path`).
pub fn joined_chars(base: &Vec<char>, name: &Vec<char>, platform: Platform) -> (r: Vec<char>)
    ensures
        r@ == joined_path(platform, base@, name@),
{
    let whole = base.len();
    match platform {
        Platform::Linux => {
            if name.len() > 0 && name[0] == '/' {
                return slice_of(name, 0, name.len());
            }
            let mut out = slice_of(base, 0, whole);
            if whole > 0 && base[whole - 1] != '/' {
                out.push('/');
            }
            append_chars(&mut out, name);
            out
        },
        Platform::Windows => {
            let np = parse_prefix(name, Platform::Windows);
            if np.kind != PrefixKind::NoPrefix {
                return slice_of(name, 0, name.len());
            }
            let bp = parse_prefix(base, Platform::Windows);
            proof {
                lemma_prefix_len(Platform::Windows, base@);
            }
            if verbatim_kind(bp.kind) && name.len() > 0 {
                return verbatim_join(base, name, bp.len);
            }
            if name.len() > 0 && is_win_sep_char(name[0]) {
                let mut out = slice_of(base, 0, bp.len);
                append_chars(&mut out, name);
                return out;
            }
            let mut out = slice_of(base, 0, whole);
            if whole > 0 && !is_win_sep_char(base[whole - 1]) && !(bp.kind == PrefixKind::Disk
                && bp.len == whole) {
                out.push('\\');
            }
            append_chars(&mut out, name);
            out
        },
    }
}

/// The separator that joining puts between two paths: `/` on Unix, `\\` on
/// Windows.
pub open spec fn main_separator(platform: Platform) -> char {
    match platform {
        Platform::Linux => '/',
        Platform::Windows => '\\',
    }
}

/// Joining a relative name (no prefix, no leading separator) to a base that
/// does not end with a separator keeps both whole and puts the platform's
/// main separator between them; the exceptions are a base that is a bare
/// drive such as `C:` and a verbatim (`\\?\`) base, which joining treats
/// otherwise.
pub proof fn lemma_join_inserts_separator(platform: Platform, base: Seq<char>, name: Seq<char>)
    requires
        base.len() > 0,
        !is_separator(platform, base.last()),
        name.len() > 0 ==> !is_separator(platform, name[0]),
        path_prefix(platform, name).kind == PrefixKind::NoPrefix,
        !is_verbatim(path_prefix(platform, base).kind),
        !(path_prefix(platform, base).kind == PrefixKind::Disk && path_prefix(platform, base).len
            == base.len()),
    ensures
        joined_path(platform, base, name) == base + seq![main_separator(platform)] + name,
{
}

/// `String::push` appends the given character to the end of the string; the
/// contract states that and nothing more.
pub assume_specification[ String::push ](s: &mut String, ch: char)
    ensures
        final(s)@ == old(s)@.push(ch),
;

/// The characters `chars` as a `String`.
fn string_of(chars: &Vec<char>) -> (r: String)
    ensures
        r@ == chars@,
{
    let mut r = String::new();
    for i in 0..chars.len()
        invariant
            r@ == chars@.take(i as int),
    {
        r.push(chars[i]);
        assert(r@ =~= chars@.take(i + 1));
    }
    assert(chars@.take(chars@.len() as int) =~= chars@);
    r
}

/// `Path::join(base, name)` on `platform` (`joined_path`).
pub fn join_path(base: &str, name: &str, platform: Platform) -> (r: String)
    ensures
        r@ == joined_path(platform, base@, name@),
{
    string_of(&joined_chars(&chars_of(base), &chars_of(name), platform))
}

/// The debugging form of a path (what `format!("{:?}", path)` writes): the
/// path in double quotes with special characters escaped.
pub uninterp spec fn path_debug(path: Seq<char>) -> Seq<char>;

/// Formats `Path::new(path)` with `{:?}`.  The contract names the text that
/// comes out as a function of the path's characters alone; the escaping rules
/// themselves are left unsaid.
#[verifier::external_body]
pub(crate) fn debug_path(path: &str) -> (r: String)
    ensures
        r@ == path_debug(path@),
{
    format!("{:?}", std::path::Path::new(path))
}

} // verus!
