//! The pure part of request handling: mapping a file path to the content
//! type it is served under, by its extension.

use vstd::prelude::*;
use vstd::string::{StringExecFns, StringSliceAdditionalSpecFns};
use crate::text::bytes_eq;

verus! {

/// The index just after the last slash, or zero if there is none: where
/// the file name of a path begins.
pub open spec fn file_name_start(p: Seq<u8>) -> nat
    decreases p.len(),
{
    if p.len() == 0 {
        0
    } else if p.last() == 47 {
        p.len()
    } else {
        file_name_start(p.drop_last())
    }
}

/// The index just after the last dot of a file name, or zero if there is
/// none: where the extension would begin.
pub open spec fn ext_start(f: Seq<u8>) -> nat
    decreases f.len(),
{
    if f.len() == 0 {
        0
    } else if f.last() == 46 {
        f.len()
    } else {
        ext_start(f.drop_last())
    }
}

/// The extension of a path: the file name's part after its last dot,
/// empty when there is no dot or the dot leads the name (a hidden file),
/// as `Path::extension` treats it.
pub open spec fn ext_of(p: Seq<u8>) -> Seq<u8> {
    let f = p.skip(file_name_start(p) as int);
    if ext_start(f) > 1 {
        f.skip(ext_start(f) as int)
    } else {
        Seq::empty()
    }
}

/// The content type served for an extension.
pub open spec fn content_type_chars(ext: Seq<u8>) -> Seq<char> {
    if ext == "html".spec_bytes() || ext == "htm".spec_bytes() {
        "text/html; charset=utf-8"@
    } else if ext == "css".spec_bytes() {
        "text/css; charset=utf-8"@
    } else if ext == "js".spec_bytes() {
        "application/javascript; charset=utf-8"@
    } else if ext == "json".spec_bytes() {
        "application/json; charset=utf-8"@
    } else if ext == "png".spec_bytes() {
        "image/png"@
    } else if ext == "jpg".spec_bytes() || ext == "jpeg".spec_bytes() {
        "image/jpeg"@
    } else if ext == "gif".spec_bytes() {
        "image/gif"@
    } else if ext == "svg".spec_bytes() {
        "image/svg+xml"@
    } else if ext == "ico".spec_bytes() {
        "image/x-icon"@
    } else if ext == "txt".spec_bytes() {
        "text/plain; charset=utf-8"@
    } else if ext == "pdf".spec_bytes() {
        "application/pdf"@
    } else {
        "application/octet-stream"@
    }
}

proof fn lemma_file_name_start(p: Seq<u8>, j: int)
    requires
        0 <= j <= p.len(),
        forall|k: int| j <= k < p.len() ==> p[k] != 47,
        j == 0 || p[j - 1] == 47,
    ensures
        file_name_start(p) == j,
    decreases p.len(),
{
    if j < p.len() {
        lemma_file_name_start(p.drop_last(), j);
    }
}

proof fn lemma_ext_start(f: Seq<u8>, j: int)
    requires
        0 <= j <= f.len(),
        forall|k: int| j <= k < f.len() ==> f[k] != 46,
        j == 0 || f[j - 1] == 46,
    ensures
        ext_start(f) == j,
    decreases f.len(),
{
    if j < f.len() {
        lemma_ext_start(f.drop_last(), j);
    }
}

/// The content type a static file is served under, decided by the
/// extension of its path.
#[verifier::loop_isolation(false)]
pub fn get_content_type(file_path: &str) -> (r: String)
    ensures
        r@ == content_type_chars(ext_of(file_path.spec_bytes())),
{
    let p = file_path.as_bytes();

    // Where the file name begins: just after the last slash.
    let mut fs: usize = p.len();
    while fs > 0 && p[fs - 1] != 47
        invariant
            fs <= p.len(),
            forall|k: int| fs <= k < p@.len() ==> p@[k] != 47,
        decreases fs,
    {
        fs = fs - 1;
    }
    proof {
        lemma_file_name_start(p@, fs as int);
    }
    let fname = &p[fs..p.len()];
    assert(fname@ == p@.skip(file_name_start(p@) as int));

    // Where the extension begins: just after the file name's last dot.
    let mut es: usize = fname.len();
    while es > 0 && fname[es - 1] != 46
        invariant
            es <= fname@.len(),
            forall|k: int| es <= k < fname@.len() ==> fname@[k] != 46,
        decreases es,
    {
        es = es - 1;
    }
    proof {
        lemma_ext_start(fname@, es as int);
    }
    let ext: &[u8] = if es > 1 {
        &fname[es..fname.len()]
    } else {
        &fname[0..0]
    };
    proof {
        if es > 1 {
            assert(ext@ == ext_of(file_path.spec_bytes()));
        } else {
            assert(ext@ =~= Seq::<u8>::empty());
            assert(ext@ == ext_of(file_path.spec_bytes()));
        }
    }

    let name: &'static str = if bytes_eq(ext, "html".as_bytes()) || bytes_eq(
        ext,
        "htm".as_bytes(),
    ) {
        "text/html; charset=utf-8"
    } else if bytes_eq(ext, "css".as_bytes()) {
        "text/css; charset=utf-8"
    } else if bytes_eq(ext, "js".as_bytes()) {
        "application/javascript; charset=utf-8"
    } else if bytes_eq(ext, "json".as_bytes()) {
        "application/json; charset=utf-8"
    } else if bytes_eq(ext, "png".as_bytes()) {
        "image/png"
    } else if bytes_eq(ext, "jpg".as_bytes()) || bytes_eq(ext, "jpeg".as_bytes()) {
        "image/jpeg"
    } else if bytes_eq(ext, "gif".as_bytes()) {
        "image/gif"
    } else if bytes_eq(ext, "svg".as_bytes()) {
        "image/svg+xml"
    } else if bytes_eq(ext, "ico".as_bytes()) {
        "image/x-icon"
    } else if bytes_eq(ext, "txt".as_bytes()) {
        "text/plain; charset=utf-8"
    } else if bytes_eq(ext, "pdf".as_bytes()) {
        "application/pdf"
    } else {
        "application/octet-stream"
    };
    name.to_owned()
}

} // verus!
