use vstd::prelude::*;

verus! {

/// Longer edge, in pixels, of every generated preview.
pub const THUMBNAIL_EDGE: u32 = 256;

/// Index of the last `.` in `s`, or -1 when there is none.
pub open spec fn last_dot(s: Seq<char>) -> int
    decreases s.len(),
{
    if s.len() == 0 {
        -1
    } else if s.last() == '.' {
        s.len() - 1
    } else {
        last_dot(s.drop_last())
    }
}

/// Extension recorded for files whose name gives none.
pub open spec fn fallback_extension() -> Seq<char> {
    seq!['b', 'i', 'n']
}

/// The extension of a file name: the text after its last `.`, when that dot
/// is neither the first nor the last character; `bin` otherwise.
pub open spec fn extension_of(name: Seq<char>) -> Seq<char> {
    let k = last_dot(name);
    if 0 < k && k + 1 < name.len() {
        name.subrange(k + 1, name.len() as int)
    } else {
        fallback_extension()
    }
}

proof fn lemma_last_dot_prefix(s: Seq<char>, i: int)
    requires
        0 <= i <= s.len(),
        forall|j: int| i <= j < s.len() ==> s[j] != '.',
    ensures
        last_dot(s) == last_dot(s.subrange(0, i)),
    decreases s.len() - i,
{
    if i < s.len() {
        assert(s.drop_last().subrange(0, i) =~= s.subrange(0, i));
        lemma_last_dot_prefix(s.drop_last(), i);
    } else {
        assert(s.subrange(0, i) =~= s);
    }
}

/// The extension under which an original file named `name` is stored.
pub fn file_extension(name: &str) -> (r: String)
    ensures
        r@ == extension_of(name@),
{
    let n = name.unicode_len();
    let mut i: usize = n;
    while i > 0
        invariant
            i <= n == name@.len(),
            forall|j: int| i <= j < n ==> name@[j] != '.',
        ensures
            i <= n,
            forall|j: int| i <= j < n ==> name@[j] != '.',
            i == 0 || name@[i - 1] == '.',
        decreases i,
    {
        if name.get_char(i - 1) == '.' {
            break;
        }
        i = i - 1;
    }
    proof {
        lemma_last_dot_prefix(name@, i as int);
        let p = name@.subrange(0, i as int);
        if i > 0 {
            assert(p.last() == '.');
        } else {
            assert(p.len() == 0);
        }
    }
    if i >= 2 && i < n {
        String::from_str(name.substring_char(i, n))
    } else {
        proof {
            reveal_strlit("bin");
        }
        let r = String::from_str("bin");
        assert(r@ =~= fallback_extension());
        r
    }
}

/// `data_dir/library`, the root of all hash directories.
pub open spec fn library_dir_text(data_dir: Seq<char>) -> Seq<char> {
    data_dir + "/library"@
}

/// `data_dir/library/{hash}`, the directory of one digest.
pub open spec fn hash_dir_text(data_dir: Seq<char>, hash: Seq<char>) -> Seq<char> {
    library_dir_text(data_dir) + "/"@ + hash
}

/// `data_dir/library/{hash}/{hash}.{ext}`, the original file of one digest.
pub open spec fn original_path_text(data_dir: Seq<char>, hash: Seq<char>, ext: Seq<char>) -> Seq<char> {
    hash_dir_text(data_dir, hash) + "/"@ + hash + "."@ + ext
}

/// `data_dir/library/{hash}/thumbnail.webp`, the preview of one digest.
pub open spec fn thumbnail_path_text(data_dir: Seq<char>, hash: Seq<char>) -> Seq<char> {
    hash_dir_text(data_dir, hash) + "/thumbnail.webp"@
}

/// `data_dir/models/{version}`, the directory of one model version.
pub open spec fn model_dir_text(data_dir: Seq<char>, version: Seq<char>) -> Seq<char> {
    data_dir + "/models/"@ + version
}

/// The root of all hash directories under `data_dir`.
pub fn library_dir(data_dir: &str) -> (r: String)
    ensures
        r@ == library_dir_text(data_dir@),
{
    String::from_str(data_dir).concat("/library")
}

/// The directory that holds the files of the digest `hash`.
pub fn hash_dir(data_dir: &str, hash: &str) -> (r: String)
    ensures
        r@ == hash_dir_text(data_dir@, hash@),
{
    library_dir(data_dir).concat("/").concat(hash)
}

/// The path of the original file of the digest `hash` with extension `ext`.
pub fn original_path(data_dir: &str, hash: &str, ext: &str) -> (r: String)
    ensures
        r@ == original_path_text(data_dir@, hash@, ext@),
{
    hash_dir(data_dir, hash).concat("/").concat(hash).concat(".").concat(ext)
}

/// The path of the preview of the digest `hash`.
pub fn thumbnail_path(data_dir: &str, hash: &str) -> (r: String)
    ensures
        r@ == thumbnail_path_text(data_dir@, hash@),
{
    hash_dir(data_dir, hash).concat("/thumbnail.webp")
}

/// The directory of the model version `version`.
pub fn model_dir(data_dir: &str, version: &str) -> (r: String)
    ensures
        r@ == model_dir_text(data_dir@, version@),
{
    String::from_str(data_dir).concat("/models/").concat(version)
}

} // verus!
