use vstd::prelude::*;

use crate::error::ConfigError;
use crate::format::{
    FileFormat, all_formats, lookup_by_extension_normalized, spec_extensions, spec_lookup_ext,
    spec_registry,
};
use crate::paths::{
    is_absolute, path_relative_from, spec_is_absolute, spec_relative, strs_models,
};
use crate::text::{lower_text, str_eq};

verus! {

/// The largest index of `c` in `s`, or -1 when `c` does not occur.
pub open spec fn last_index_of(s: Seq<char>, c: char) -> int
    decreases s.len(),
{
    if s.len() == 0 {
        -1
    } else if s.last() == c {
        s.len() - 1
    } else {
        last_index_of(s.drop_last(), c)
    }
}

/// The text after the last separator: the file-name part of a path text.
pub open spec fn spec_file_tail(p: Seq<char>) -> Seq<char> {
    p.subrange(last_index_of(p, '/') + 1, p.len() as int)
}

/// The extension of a path text: what follows the last dot of the
/// file-name part, provided that dot is not its first character; empty
/// when there is none. The dot-only names "." and ".." have no extension.
///
/// The file-name part is taken textually, as everything after the last
/// separator. A platform path buffer would instead skip a trailing
/// separator or a trailing current-directory component and reach back to
/// the last real name; here such a degenerate text simply has an empty or
/// dot-only file-name part, and so no extension. Logical configuration
/// names are not expected to end in a separator.
pub open spec fn spec_extension_of(p: Seq<char>) -> Seq<char> {
    let tail = spec_file_tail(p);
    if tail == ".."@ {
        Seq::empty()
    } else {
        let d = last_index_of(tail, '.');
        if d > 0 {
            tail.subrange(d + 1, tail.len() as int)
        } else {
            Seq::empty()
        }
    }
}

/// The path text with its extension replaced by `ext` (or appended when the
/// file-name part has none). A path whose file-name part is empty, "." or
/// ".." names no file and stays unchanged.
///
/// As in `spec_extension_of`, the file-name part is everything after the
/// last separator, taken textually: a text ending in a separator or a
/// current-directory component is left as it is, where a platform path
/// buffer would reach back to the last real name and edit that. The probe
/// plan built from such a degenerate name then repeats the unchanged text
/// and resolution ends in `NotFound`.
pub open spec fn spec_set_extension(p: Seq<char>, ext: Seq<char>) -> Seq<char> {
    let ts = last_index_of(p, '/') + 1;
    let tail = spec_file_tail(p);
    if tail.len() == 0 || tail == "."@ || tail == ".."@ {
        p
    } else {
        let d = last_index_of(tail, '.');
        if d > 0 {
            p.subrange(0, ts + d) + "."@ + ext
        } else {
            p + "."@ + ext
        }
    }
}

/// `name` resolved against the directory `cwd`: an absolute name stands
/// alone; otherwise the two are joined with a separator, none added when
/// `cwd` already ends with one or is empty.
pub open spec fn spec_join(cwd: Seq<char>, name: Seq<char>) -> Seq<char> {
    if spec_is_absolute(name) {
        name
    } else if cwd.len() == 0 {
        name
    } else if cwd.last() == '/' {
        cwd + name
    } else {
        cwd + "/"@ + name
    }
}

/// All extensions of the formats in `fs`, in registry and probing order.
pub open spec fn flat_exts(fs: Seq<FileFormat>) -> Seq<Seq<char>>
    decreases fs,
{
    if fs.len() == 0 {
        Seq::empty()
    } else {
        spec_extensions(fs[0]) + flat_exts(fs.subrange(1, fs.len() as int))
    }
}

/// The format owning each extension of `flat_exts(fs)`, position by
/// position.
pub open spec fn flat_formats(fs: Seq<FileFormat>) -> Seq<FileFormat>
    decreases fs,
{
    if fs.len() == 0 {
        Seq::empty()
    } else {
        Seq::new(spec_extensions(fs[0]).len(), |i: int| fs[0]) + flat_formats(
            fs.subrange(1, fs.len() as int),
        )
    }
}

pub proof fn lemma_flat_lens(fs: Seq<FileFormat>)
    ensures
        flat_exts(fs).len() == flat_formats(fs).len(),
    decreases fs,
{
    if fs.len() > 0 {
        lemma_flat_lens(fs.subrange(1, fs.len() as int));
    }
}

/// The extensions probed for a resolution: the hinted format's own, or
/// every registered extension in registry order.
pub open spec fn hint_exts(hint: Option<FileFormat>) -> Seq<Seq<char>> {
    match hint {
        Option::Some(f) => spec_extensions(f),
        Option::None => flat_exts(spec_registry()),
    }
}

/// The format each probed extension selects.
pub open spec fn hint_formats(hint: Option<FileFormat>) -> Seq<FileFormat> {
    match hint {
        Option::Some(f) => Seq::new(spec_extensions(f).len(), |i: int| f),
        Option::None => flat_formats(spec_registry()),
    }
}

/// The ordered probe plan of a resolution: first the exact path, then the
/// path with each probed extension set in turn.
pub open spec fn spec_candidates(cwd: Seq<char>, name: Seq<char>, hint: Option<FileFormat>) -> Seq<
    Seq<char>,
> {
    let exact = spec_join(cwd, name);
    seq![exact] + Seq::new(
        hint_exts(hint).len(),
        |i: int| spec_set_extension(exact, hint_exts(hint)[i]),
    )
}

/// Largest index of `c` in `s` as an executable search.
#[verifier::loop_isolation(false)]
fn last_index_of_char(s: &str, c: char) -> (r: Option<usize>)
    ensures
        r matches Some(i) ==> last_index_of(s@, c) == i as int && i < s@.len(),
        r is None ==> last_index_of(s@, c) == -1,
{
    let n = s.unicode_len();
    let mut i: usize = n;
    proof {
        assert(s@.subrange(0, n as int) =~~= s@);
    }
    while i > 0
        invariant
            0 <= i <= n,
            last_index_of(s@, c) == last_index_of(s@.subrange(0, i as int), c),
        decreases i,
    {
        let ch = s.get_char(i - 1);
        proof {
            let pre = s@.subrange(0, i as int);
            assert(pre.last() == s@[i - 1]);
            assert(pre.drop_last() =~~= s@.subrange(0, i - 1));
        }
        if ch == c {
            return Some(i - 1);
        }
        i = i - 1;
    }
    None
}

/// Replace or append the extension of a path text.
pub fn with_extension(path: &str, ext: &str) -> (r: String)
    ensures
        r@ == spec_set_extension(path@, ext@),
{
    let n = path.unicode_len();
    let ts: usize = match last_index_of_char(path, '/') {
        Some(i) => i + 1,
        None => 0,
    };
    let tail = path.substring_char(ts, n);
    if tail.is_empty() || str_eq(tail, ".") || str_eq(tail, "..") {
        path.to_owned()
    } else {
        let d = last_index_of_char(tail, '.');
        match d {
            Some(k) if k > 0 => {
                let stem = path.substring_char(0, ts + k);
                let mut out = stem.to_owned();
                out.append(".");
                out.append(ext);
                proof {
                    assert(path@.subrange(0, ts + k) + "."@ + ext@ =~~= out@);
                }
                out
            },
            _ => {
                let mut out = path.to_owned();
                out.append(".");
                out.append(ext);
                proof {
                    assert(path@ + "."@ + ext@ =~~= out@);
                }
                out
            },
        }
    }
}

/// The extension of a path text, empty when there is none.
pub fn extension_of(path: &str) -> (r: String)
    ensures
        r@ == spec_extension_of(path@),
{
    let n = path.unicode_len();
    let ts: usize = match last_index_of_char(path, '/') {
        Some(i) => i + 1,
        None => 0,
    };
    let tail = path.substring_char(ts, n);
    if str_eq(tail, "..") {
        String::new()
    } else {
        let d = last_index_of_char(tail, '.');
        match d {
            Some(k) if k > 0 => {
                let m = tail.unicode_len();
                tail.substring_char(k + 1, m).to_owned()
            },
            _ => String::new(),
        }
    }
}

/// Join a name onto a directory as the probe plan does.
pub fn join_path(cwd: &str, name: &str) -> (r: String)
    ensures
        r@ == spec_join(cwd@, name@),
{
    if is_absolute(name) {
        name.to_owned()
    } else {
        let n = cwd.unicode_len();
        if n == 0 {
            name.to_owned()
        } else if cwd.get_char(n - 1) == '/' {
            let mut out = cwd.to_owned();
            out.append(name);
            proof {
                assert(cwd@.last() == cwd@[n - 1]);
            }
            out
        } else {
            let mut out = cwd.to_owned();
            out.append("/");
            out.append(name);
            proof {
                assert(cwd@ + "/"@ + name@ =~~= out@);
            }
            out
        }
    }
}

/// A configuration source backed by a file on disk, named by a logical
/// path with or without extension.
#[derive(Debug, PartialEq)]
pub struct FileSourceFile {
    /// Path of the configuration file, as the caller gave it.
    pub name: String,
}

/// A successful file-resolution decision: the path to read and the format
/// that will parse it.
#[derive(Debug, PartialEq)]
pub struct FoundFile {
    pub path: String,
    pub format: FileFormat,
}

/// What one resolution hands to the merge stage: a display uri, the raw
/// text, and the chosen format.
#[derive(Debug, PartialEq)]
pub struct FileSourceResult {
    pub uri: Option<String>,
    pub content: String,
    pub format: FileFormat,
}

/// The display uri of a resolved path: the path relative to the working
/// directory, falling back to the path itself when no relative expression
/// exists.
pub open spec fn spec_display_uri(path: Seq<char>, cwd: Seq<char>) -> Seq<char> {
    match spec_relative(path, cwd) {
        Option::Some(s) => s,
        Option::None => path,
    }
}

/// The probed extensions and, position by position, the format each one
/// selects.
#[verifier::loop_isolation(false)]
fn probe_lists(hint: Option<FileFormat>) -> (r: (Vec<String>, Vec<FileFormat>))
    ensures
        strs_models(r.0@) == hint_exts(hint),
        r.1@ == hint_formats(hint),
        r.0@.len() == r.1@.len(),
{
    let mut exts: Vec<String> = Vec::new();
    let mut fmts: Vec<FileFormat> = Vec::new();
    match hint {
        Some(f) => {
            let fe = f.extensions();
            let mut j: usize = 0;
            while j < fe.len()
                invariant
                    0 <= j <= fe@.len(),
                    exts@.len() == j,
                    fmts@.len() == j,
                    forall|k: int| 0 <= k < j ==> exts@[k]@ == spec_extensions(f)[k],
                    forall|k: int| 0 <= k < j ==> fmts@[k] == f,
                decreases fe@.len() - j,
            {
                exts.push(fe[j].clone());
                fmts.push(f);
                j = j + 1;
            }
            proof {
                assert(strs_models(exts@) =~~= hint_exts(hint));
                assert(fmts@ =~~= hint_formats(hint));
            }
        },
        None => {
            let formats = all_formats();
            let mut i: usize = 0;
            proof {
                assert(spec_registry().subrange(0, spec_registry().len() as int)
                    =~~= spec_registry());
                assert(strs_models(exts@) =~~= Seq::<Seq<char>>::empty());
                assert(Seq::<Seq<char>>::empty() + flat_exts(spec_registry()) =~~= flat_exts(
                    spec_registry(),
                ));
                assert(fmts@ + flat_formats(spec_registry()) =~~= flat_formats(spec_registry()));
            }
            while i < formats.len()
                invariant
                    0 <= i <= formats@.len(),
                    exts@.len() == fmts@.len(),
                    strs_models(exts@) + flat_exts(
                        spec_registry().subrange(i as int, spec_registry().len() as int),
                    ) == flat_exts(spec_registry()),
                    fmts@ + flat_formats(
                        spec_registry().subrange(i as int, spec_registry().len() as int),
                    ) == flat_formats(spec_registry()),
                decreases formats@.len() - i,
            {
                let ghost exts0 = exts@;
                let ghost fmts0 = fmts@;
                let ghost fs = spec_registry().subrange(i as int, spec_registry().len() as int);
                proof {
                    assert(fs[0] == spec_registry()[i as int]);
                    assert(fs.subrange(1, fs.len() as int) =~~= spec_registry().subrange(
                        i + 1,
                        spec_registry().len() as int,
                    ));
                }
                let f = formats[i];
                let fe = f.extensions();
                let mut j: usize = 0;
                while j < fe.len()
                    invariant
                        0 <= j <= fe@.len(),
                        exts@.len() == exts0.len() + j,
                        fmts@.len() == fmts0.len() + j,
                        forall|k: int| 0 <= k < exts0.len() ==> #[trigger] exts@[k] == exts0[k],
                        forall|k: int| 0 <= k < fmts0.len() ==> #[trigger] fmts@[k] == fmts0[k],
                        forall|k: int|
                            0 <= k < j ==> (#[trigger] exts@[exts0.len() + k])@ == spec_extensions(
                                f,
                            )[k],
                        forall|k: int|
                            0 <= k < j ==> #[trigger] fmts@[fmts0.len() + k] == f,
                    decreases fe@.len() - j,
                {
                    exts.push(fe[j].clone());
                    fmts.push(f);
                    j = j + 1;
                }
                proof {
                    assert forall|m: int| 0 <= m < exts@.len() implies (#[trigger] strs_models(
                        exts@,
                    )[m]) == (strs_models(exts0) + spec_extensions(f))[m] by {
                        if m >= exts0.len() {
                            let k = m - exts0.len();
                            assert((exts@[exts0.len() + k])@ == spec_extensions(f)[k]);
                        } else {
                            assert(exts@[m] == exts0[m]);
                        }
                    }
                    assert(strs_models(exts@) =~~= strs_models(exts0) + spec_extensions(f));
                    assert forall|m: int| 0 <= m < fmts@.len() implies (#[trigger] fmts@[m]) == (
                    fmts0 + Seq::new(spec_extensions(f).len(), |k: int| f))[m] by {
                        if m >= fmts0.len() {
                            let k = m - fmts0.len();
                            assert(fmts@[fmts0.len() + k] == f);
                        } else {
                            assert(fmts@[m] == fmts0[m]);
                        }
                    }
                    assert(fmts@ =~~= fmts0 + Seq::new(spec_extensions(f).len(), |k: int| f));
                    assert(strs_models(exts0) + spec_extensions(f) + flat_exts(
                        fs.subrange(1, fs.len() as int),
                    ) =~~= strs_models(exts0) + (spec_extensions(f) + flat_exts(
                        fs.subrange(1, fs.len() as int),
                    )));
                    assert(fmts0 + Seq::new(spec_extensions(f).len(), |k: int| f) + flat_formats(
                        fs.subrange(1, fs.len() as int),
                    ) =~~= fmts0 + (Seq::new(spec_extensions(f).len(), |k: int| f) + flat_formats(
                        fs.subrange(1, fs.len() as int),
                    )));
                }
                i = i + 1;
            }
            proof {
                let empty_fs = spec_registry().subrange(
                    spec_registry().len() as int,
                    spec_registry().len() as int,
                );
                assert(empty_fs =~~= Seq::<FileFormat>::empty());
                assert(strs_models(exts@) + Seq::<Seq<char>>::empty() =~~= strs_models(exts@));
                assert(fmts@ + Seq::<FileFormat>::empty() =~~= fmts@);
            }
        },
    }
    (exts, fmts)
}

impl FileSourceFile {
    /// A file source for the given logical name.
    pub fn new(name: String) -> (r: FileSourceFile)
        ensures
            r.name == name,
    {
        FileSourceFile { name }
    }

    /// The ordered probe plan of this source: index 0 is the exact path,
    /// the following entries the path with each probed extension. Existence
    /// is checked outside; the first existing index decides (`find_file`).
    #[verifier::loop_isolation(false)]
    pub fn candidate_paths(&self, cwd: &str, hint: Option<FileFormat>) -> (r: Vec<String>)
        ensures
            strs_models(r@) == spec_candidates(cwd@, self.name@, hint),
    {
        let exact = join_path(cwd, self.name.as_str());
        let (exts, _fmts) = probe_lists(hint);
        let mut r: Vec<String> = Vec::new();
        r.push(exact.clone());
        let mut j: usize = 0;
        while j < exts.len()
            invariant
                0 <= j <= exts@.len(),
                r@.len() == 1 + j,
                r@[0]@ == spec_join(cwd@, self.name@),
                forall|k: int|
                    0 <= k < j ==> r@[1 + k]@ == spec_set_extension(
                        spec_join(cwd@, self.name@),
                        hint_exts(hint)[k],
                    ),
            decreases exts@.len() - j,
        {
            let cand = with_extension(exact.as_str(), exts[j].as_str());
            r.push(cand);
            j = j + 1;
        }
        proof {
            assert(strs_models(r@) =~~= spec_candidates(cwd@, self.name@, hint));
        }
        r
    }

    /// The decision of file resolution, once existence is known: `first_hit`
    /// is the index of the first entry of `candidate_paths` that exists as a
    /// regular file, `None` when no entry does. An existing exact match is
    /// tagged with the hinted format when a hint was given - the hint always
    /// overrides the file's own extension - and otherwise with the format
    /// its extension, case-normalized to lower case, selects in the
    /// registry, an unrecognized extension being an `UnregisteredFormat`
    /// error. An extension-probed hit carries
    /// the format that put its extension into the plan. With no hit at all
    /// the resolution fails as `NotFound`, naming the original `name`.
    pub fn find_file(&self, cwd: &str, hint: Option<FileFormat>, first_hit: Option<usize>) -> (r:
        Result<FoundFile, ConfigError>)
        requires
            first_hit matches Some(i) ==> i < spec_candidates(cwd@, self.name@, hint).len(),
        ensures
            first_hit is None ==> (r matches Err(e) && e matches ConfigError::NotFound(s) && s@
                == self.name@),
            first_hit matches Some(i) ==> (if i == 0 {
                match hint {
                    Option::Some(f) => r matches Ok(ff) && ff.path@ == spec_join(
                        cwd@,
                        self.name@,
                    ) && ff.format == f,
                    Option::None => match spec_lookup_ext(
                        lower_text(spec_extension_of(spec_join(cwd@, self.name@))),
                    ) {
                        Option::Some(f) => r matches Ok(ff) && ff.path@ == spec_join(
                            cwd@,
                            self.name@,
                        ) && ff.format == f,
                        Option::None => r matches Err(e) && e
                            matches ConfigError::UnregisteredFormat(s) && s@ == spec_join(
                            cwd@,
                            self.name@,
                        ),
                    },
                }
            } else {
                r matches Ok(ff) && ff.path@ == spec_candidates(cwd@, self.name@, hint)[
                    i as int] && ff.format == hint_formats(hint)[i - 1]
            }),
    {
        match first_hit {
            None => Err(ConfigError::NotFound(self.name.clone())),
            Some(i) => {
                let exact = join_path(cwd, self.name.as_str());
                if i == 0 {
                    match hint {
                        Some(f) => Ok(FoundFile { path: exact, format: f }),
                        None => {
                            let ext = extension_of(exact.as_str());
                            match lookup_by_extension_normalized(ext.as_str()) {
                                Some(f) => Ok(FoundFile { path: exact, format: f }),
                                None => Err(ConfigError::UnregisteredFormat(exact)),
                            }
                        },
                    }
                } else {
                    let cands = self.candidate_paths(cwd, hint);
                    let (_exts, fmts) = probe_lists(hint);
                    let path = cands[i].clone();
                    let format = fmts[i - 1];
                    Ok(FoundFile { path, format })
                }
            },
        }
    }

    /// The packaging step of `resolve`: the caller has read the found file's
    /// text, or reports why it could not. Success bundles the display uri -
    /// the path relative to the working directory, or the path itself when
    /// no relative form exists - with the untouched text and the chosen
    /// format; a failed read surfaces as an `IOError`, never as `NotFound`.
    pub fn resolve_found(found: FoundFile, cwd: &str, content: Result<String, String>) -> (r:
        Result<FileSourceResult, ConfigError>)
        ensures
            content matches Err(m) ==> (r matches Err(e) && e matches ConfigError::Io(s) && s@
                == m@),
            content matches Ok(text) ==> (r matches Ok(fsr) && fsr.uri matches Some(u) && u@
                == spec_display_uri(found.path@, cwd@) && fsr.content@ == text@ && fsr.format
                == found.format),
    {
        match content {
            Err(m) => Err(ConfigError::Io(m)),
            Ok(text) => {
                let uri = match path_relative_from(found.path.as_str(), cwd) {
                    Some(u) => u,
                    None => found.path.clone(),
                };
                Ok(FileSourceResult { uri: Some(uri), content: text, format: found.format })
            },
        }
    }
}

} // verus!
