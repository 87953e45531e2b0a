use vstd::prelude::*;

use crate::text::{lower_text, lowered_eq, str_eq};

verus! {

/// A compiled-in format backend, identified as a closed variant set. Only
/// the JSON backend parses here; the others take part in file resolution
/// through their registered extensions.
#[derive(Debug, Clone, Copy, PartialEq, Eq, Structural)]
pub enum FileFormat {
    Json,
    Toml,
    Yaml,
}

/// The recognized lowercase extensions of a format, without the leading dot.
pub open spec fn spec_extensions(f: FileFormat) -> Seq<Seq<char>> {
    match f {
        FileFormat::Json => seq!["json"@],
        FileFormat::Toml => seq!["toml"@],
        FileFormat::Yaml => seq!["yaml"@, "yml"@],
    }
}

/// The fixed registration order of the compiled-in formats. It decides the
/// tie-break when two formats claim one extension, and the order of
/// extension probing during file resolution.
pub open spec fn spec_registry() -> Seq<FileFormat> {
    seq![FileFormat::Json, FileFormat::Toml, FileFormat::Yaml]
}

/// The first format in `fs` whose extension set contains `ext`.
pub open spec fn spec_lookup_from(fs: Seq<FileFormat>, ext: Seq<char>) -> Option<FileFormat>
    decreases fs,
{
    if fs.len() == 0 {
        Option::None
    } else if spec_extensions(fs[0]).contains(ext) {
        Option::Some(fs[0])
    } else {
        spec_lookup_from(fs.subrange(1, fs.len() as int), ext)
    }
}

/// The format an extension selects: the first registered format that claims
/// it.
pub open spec fn spec_lookup_ext(ext: Seq<char>) -> Option<FileFormat> {
    spec_lookup_from(spec_registry(), ext)
}

/// Every compiled-in format, in registration order.
pub fn all_formats() -> (r: Vec<FileFormat>)
    ensures
        r@ == spec_registry(),
{
    let mut v: Vec<FileFormat> = Vec::new();
    v.push(FileFormat::Json);
    v.push(FileFormat::Toml);
    v.push(FileFormat::Yaml);
    proof {
        assert(v@ =~= spec_registry());
    }
    v
}

impl FileFormat {
    /// The recognized extensions of this format, in probing order.
    pub fn extensions(&self) -> (r: Vec<String>)
        ensures
            r@.len() == spec_extensions(*self).len(),
            forall|i: int| 0 <= i < r@.len() ==> r@[i]@ == spec_extensions(*self)[i],
    {
        let mut v: Vec<String> = Vec::new();
        match self {
            FileFormat::Json => {
                v.push("json".to_owned());
            },
            FileFormat::Toml => {
                v.push("toml".to_owned());
            },
            FileFormat::Yaml => {
                v.push("yaml".to_owned());
                v.push("yml".to_owned());
            },
        }
        v
    }
}

/// Scan the registry in order and hand back the first format claiming
/// `ext`; `None` when no registered format does.
#[verifier::loop_isolation(false)]
pub fn lookup_by_extension(ext: &str) -> (r: Option<FileFormat>)
    ensures
        r == spec_lookup_ext(ext@),
{
    let formats = all_formats();
    proof {
        assert(spec_registry().subrange(0, spec_registry().len() as int) =~= spec_registry());
    }
    let mut i: usize = 0;
    while i < formats.len()
        invariant
            0 <= i <= formats@.len(),
            spec_lookup_ext(ext@) == spec_lookup_from(
                spec_registry().subrange(i as int, spec_registry().len() as int),
                ext@,
            ),
        decreases formats@.len() - i,
    {
        let f = formats[i];
        let exts = f.extensions();
        let mut j: usize = 0;
        while j < exts.len()
            invariant
                0 <= j <= exts@.len(),
                forall|k: int| 0 <= k < j ==> spec_extensions(f)[k] != ext@,
            decreases exts@.len() - j,
        {
            if str_eq(exts[j].as_str(), ext) {
                proof {
                    let fs = spec_registry().subrange(i as int, spec_registry().len() as int);
                    assert(fs[0] == f);
                    assert(spec_extensions(f)[j as int] == ext@);
                    assert(spec_extensions(f).contains(ext@));
                }
                return Some(f);
            }
            j = j + 1;
        }
        proof {
            let fs = spec_registry().subrange(i as int, spec_registry().len() as int);
            assert(fs[0] == f);
            assert(!spec_extensions(f).contains(ext@));
            assert(fs.subrange(1, fs.len() as int) =~= spec_registry().subrange(
                i + 1,
                spec_registry().len() as int,
            ));
        }
        i = i + 1;
    }
    None
}

/// Scan the registry for the caller-normalized form of `ext`: the resolver
/// ASCII-lowercases an extension read off a file name before the
/// case-sensitive lookup, so `JSON` selects the same format as `json`.
#[verifier::loop_isolation(false)]
pub fn lookup_by_extension_normalized(ext: &str) -> (r: Option<FileFormat>)
    ensures
        r == spec_lookup_ext(lower_text(ext@)),
{
    let formats = all_formats();
    proof {
        assert(spec_registry().subrange(0, spec_registry().len() as int) =~= spec_registry());
    }
    let mut i: usize = 0;
    while i < formats.len()
        invariant
            0 <= i <= formats@.len(),
            spec_lookup_ext(lower_text(ext@)) == spec_lookup_from(
                spec_registry().subrange(i as int, spec_registry().len() as int),
                lower_text(ext@),
            ),
        decreases formats@.len() - i,
    {
        let f = formats[i];
        let exts = f.extensions();
        let mut j: usize = 0;
        while j < exts.len()
            invariant
                0 <= j <= exts@.len(),
                forall|k: int| 0 <= k < j ==> spec_extensions(f)[k] != lower_text(ext@),
            decreases exts@.len() - j,
        {
            if lowered_eq(ext, exts[j].as_str()) {
                proof {
                    let fs = spec_registry().subrange(i as int, spec_registry().len() as int);
                    assert(fs[0] == f);
                    assert(spec_extensions(f)[j as int] == lower_text(ext@));
                    assert(spec_extensions(f).contains(lower_text(ext@)));
                }
                return Some(f);
            }
            j = j + 1;
        }
        proof {
            let fs = spec_registry().subrange(i as int, spec_registry().len() as int);
            assert(fs[0] == f);
            assert(!spec_extensions(f).contains(lower_text(ext@)));
            assert(fs.subrange(1, fs.len() as int) =~= spec_registry().subrange(
                i + 1,
                spec_registry().len() as int,
            ));
        }
        i = i + 1;
    }
    None
}

} // verus!
