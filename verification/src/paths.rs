//! Where the data files and the cached cover images live.

use vstd::prelude::*;

use crate::text::{
    chars_of, decimal, digits_value, lemma_decimal_digits, lemma_zero_pad_value, pad3_decimal, push_all,
    string_of, zero_pad,
};
use crate::url::{clean_url, unescape};

verus! {

/// The name of the episode data file.
pub const EPISODES_FILE: &'static str = "episodes.json";

/// The cover cache directory, relative to the data directory.
pub const CACHE_DIR: &'static str = "cache/covers";

/// `base` with `name` pushed onto it as `PathBuf::push` does on Unix: an absolute `name`
/// replaces `base`; otherwise a `/` goes between them unless `base` is empty or already ends
/// with one.
pub open spec fn join_path(base: Seq<char>, name: Seq<char>) -> Seq<char> {
    if name.len() > 0 && name[0] == '/' {
        name
    } else if base.len() == 0 || base.last() == '/' {
        base + name
    } else {
        base + seq!['/'] + name
    }
}

/// `Path::join` on Unix.
pub fn join_path_exec(base: &str, name: &str) -> (r: String)
    ensures
        r@ == join_path(base@, name@),
{
    let b = chars_of(base);
    let n = chars_of(name);
    if n.len() > 0 && n[0] == '/' {
        return string_of(&n);
    }
    let mut out = b;
    if out.len() > 0 && out[out.len() - 1] != '/' {
        out.push('/');
    }
    push_all(&mut out, &n);
    proof {
        if b@.len() > 0 && b@.last() != '/' {
            assert(out@ =~= b@ + seq!['/'] + n@);
        }
    }
    string_of(&out)
}

/// Path to a data file inside the data directory `dir` (`Path::join`; absolute when `dir` is).
pub fn data_path(dir: &str, name: &str) -> (p: String)
    ensures
        p@ == join_path(dir@, name@),
{
    join_path_exec(dir, name)
}

/// The file name of an episode's cached cover: its number zero-padded to three digits, then
/// `.webp`.
pub open spec fn cover_file_name(episode: u32) -> Seq<char> {
    zero_pad(decimal(episode as nat), 3) + ".webp"@
}

/// A cover file name is not empty and does not start with `/`.
pub proof fn lemma_cover_file_name_relative(episode: u32)
    ensures
        cover_file_name(episode).len() > 0,
        cover_file_name(episode)[0] != '/',
{
    let d = decimal(episode as nat);
    lemma_decimal_digits(episode as nat);
    let p = zero_pad(d, 3);
    assert(d[0] != '/');
    assert(p.len() > 0 && p[0] != '/');
    assert(cover_file_name(episode)[0] == p[0]);
}

/// Different episodes have different cover file names.
pub proof fn lemma_cover_file_name_injective(e1: u32, e2: u32)
    requires
        cover_file_name(e1) == cover_file_name(e2),
    ensures
        e1 == e2,
{
    let p1 = zero_pad(decimal(e1 as nat), 3);
    let p2 = zero_pad(decimal(e2 as nat), 3);
    let f = cover_file_name(e1);
    assert(f.len() == p1.len() + ".webp"@.len());
    assert(cover_file_name(e2).len() == p2.len() + ".webp"@.len());
    assert(p1.len() == p2.len());
    assert(p1 =~= f.take(p1.len() as int));
    assert(p2 =~= cover_file_name(e2).take(p2.len() as int));
    lemma_zero_pad_value(decimal(e1 as nat), 3);
    lemma_zero_pad_value(decimal(e2 as nat), 3);
    lemma_decimal_digits(e1 as nat);
    lemma_decimal_digits(e2 as nat);
    assert(digits_value(p1) == digits_value(p2));
}

/// Names that do not start with `/`, joined onto one base, give one path only when they are the
/// same name.
pub proof fn lemma_join_path_injective(base: Seq<char>, n1: Seq<char>, n2: Seq<char>)
    requires
        !(n1.len() > 0 && n1[0] == '/'),
        !(n2.len() > 0 && n2[0] == '/'),
        join_path(base, n1) == join_path(base, n2),
    ensures
        n1 == n2,
{
    let pre = if base.len() == 0 || base.last() == '/' { base } else { base + seq!['/'] };
    assert(join_path(base, n1) =~= pre + n1);
    assert(join_path(base, n2) =~= pre + n2);
    assert(n1 =~= (pre + n1).skip(pre.len() as int));
    assert(n2 =~= (pre + n2).skip(pre.len() as int));
}

/// Path to the cached cover for an episode, inside the data directory `dir`.
pub fn cover_cache_path(dir: &str, episode: u32) -> (p: String)
    ensures
        p@ == join_path(join_path(dir@, CACHE_DIR@), cover_file_name(episode)),
{
    let cache = join_path_exec(dir, CACHE_DIR);
    let mut file = pad3_decimal(episode);
    push_all(&mut file, &chars_of(".webp"));
    let file_name = string_of(&file);
    join_path_exec(cache.as_str(), file_name.as_str())
}

/// The data directory: the working directory when it holds the data file; else the nearest
/// directory above the program that does (each candidate paired with whether it holds the
/// data file, nearest first); else the working directory; else `.`.
pub open spec fn chosen_data_dir(
    cwd: Option<Seq<char>>,
    cwd_has_data: bool,
    ancestors: Seq<(Seq<char>, bool)>,
) -> Seq<char> {
    if cwd is Some && cwd_has_data {
        cwd->0
    } else if exists|i: int| 0 <= i < ancestors.len() && (#[trigger] ancestors[i]).1 {
        ancestors[first_with_data(ancestors)].0
    } else if cwd is Some {
        cwd->0
    } else {
        "."@
    }
}

/// The position of the first candidate that holds the data file.
pub open spec fn first_with_data(ancestors: Seq<(Seq<char>, bool)>) -> int
    decreases ancestors.len(),
{
    if ancestors.len() == 0 || ancestors[0].1 {
        0
    } else {
        1 + first_with_data(ancestors.drop_first())
    }
}

/// The candidate directories with their views.
pub open spec fn candidate_views(v: Seq<(String, bool)>) -> Seq<(Seq<char>, bool)> {
    v.map_values(|c: (String, bool)| (c.0@, c.1))
}

/// Picks the data directory from what the file system showed (see `chosen_data_dir`).
pub fn choose_data_dir(cwd: Option<String>, cwd_has_data: bool, ancestors: Vec<(String, bool)>) -> (d: String)
    ensures
        d@ == chosen_data_dir(crate::text::opt_view(cwd), cwd_has_data, candidate_views(ancestors@)),
{
    let ghost cands = candidate_views(ancestors@);
    if cwd.is_some() && cwd_has_data {
        return cwd.unwrap();
    }
    let mut i: usize = 0;
    assert(cands.skip(0) =~= cands);
    while i < ancestors.len()
        invariant
            i <= ancestors@.len(),
            cands == candidate_views(ancestors@),
            !(cwd.is_some() && cwd_has_data),
            forall|j: int| 0 <= j < i ==> !(#[trigger] cands[j]).1,
            first_with_data(cands) == i + first_with_data(cands.skip(i as int)),
        decreases ancestors.len() - i,
    {
        assert(cands.skip(i as int)[0] == cands[i as int]);
        if ancestors[i].1 {
            assert(first_with_data(cands.skip(i as int)) == 0);
            assert(cands[i as int].1);
            assert(first_with_data(cands) == i);
            assert(cands[i as int].0 == ancestors@[i as int].0@);
            return ancestors[i].0.clone();
        }
        assert(cands.skip(i as int).drop_first() =~= cands.skip(i + 1));
        i = i + 1;
    }
    match cwd {
        Some(c) => c,
        None => string_of(&chars_of(".")),
    }
}

/// Where to fetch a cover from and where to keep it: nothing without a URL; otherwise the URL
/// with its escaped slashes undone and the episode's cover cache path.
pub fn cover_download_plan(url: Option<&str>, dir: &str, episode: u32) -> (plan: Option<(String, String)>)
    ensures
        match url {
            None => plan is None,
            Some(u) => plan matches Some(p) && p.0@ == unescape(u@)
                && p.1@ == join_path(join_path(dir@, CACHE_DIR@), cover_file_name(episode)),
        },
{
    match url {
        None => None,
        Some(u) => Some((clean_url(u), cover_cache_path(dir, episode))),
    }
}

} // verus!
