//! The directory that holds the configurations, and the names of the
//! configurations found in it.

use vstd::prelude::*;
use vstd::seq_lib::{to_multiset_build, to_multiset_insert, to_multiset_len};
use crate::text::{range_is, to_chars, to_string};

verus! {

/// The directory of the configurations: the Homebrew location on Apple
/// silicon where that exists, the Homebrew location on Intel otherwise.
pub open spec fn wireguard_dir(arm_exists: bool) -> Seq<char> {
    if arm_exists {
        "/opt/homebrew/etc/wireguard"@
    } else {
        "/usr/local/etc/wireguard"@
    }
}

/// Chooses the directory of the configurations from what the file system
/// holds: `arm_exists` says whether `/opt/homebrew/etc/wireguard` exists,
/// `intel_exists` whether `/usr/local/etc/wireguard` does. The second location
/// is also the answer where neither exists.
pub fn get_wireguard_dir(arm_exists: bool, intel_exists: bool) -> (dir: String)
    ensures
        dir@ == wireguard_dir(arm_exists),
{
    if arm_exists {
        return "/opt/homebrew/etc/wireguard".to_owned();
    }
    if intel_exists {
        return "/usr/local/etc/wireguard".to_owned();
    }
    "/usr/local/etc/wireguard".to_owned()
}

/// The name of the configuration that the file `file_name` holds: what stands
/// before the extension `.conf`. A file of another extension, or whose name is
/// `.conf` alone, holds no configuration.
pub open spec fn config_name(file_name: Seq<char>) -> Option<Seq<char>> {
    if file_name.len() > 5 && file_name.skip(file_name.len() - 5) == ".conf"@ {
        Some(file_name.take(file_name.len() - 5))
    } else {
        None
    }
}

/// The names of the configurations among the files `file_names`, in the order
/// of the files.
pub open spec fn config_names(file_names: Seq<Seq<char>>) -> Seq<Seq<char>>
    decreases file_names.len(),
{
    if file_names.len() == 0 {
        Seq::empty()
    } else {
        let before = config_names(file_names.drop_last());
        match config_name(file_names.last()) {
            Some(name) => before.push(name),
            None => before,
        }
    }
}

/// Whether `a` comes before `b`, or is `b`, in the lexicographic order of
/// their characters.
pub open spec fn text_le(a: Seq<char>, b: Seq<char>) -> bool
    decreases a.len(),
{
    if a.len() == 0 {
        true
    } else if b.len() == 0 {
        false
    } else if a[0] != b[0] {
        (a[0] as int) < (b[0] as int)
    } else {
        text_le(a.drop_first(), b.drop_first())
    }
}

/// Whether `names` is in lexicographic order.
pub open spec fn sorted(names: Seq<Seq<char>>) -> bool {
    forall|i: int, j: int| 0 <= i <= j < names.len() ==> text_le(names[i], names[j])
}

/// The views of a sequence of strings.
pub open spec fn texts(strings: Seq<String>) -> Seq<Seq<char>> {
    Seq::new(strings.len(), |k: int| strings[k]@)
}

/// The views of a sequence of character vectors.
pub open spec fn vec_texts(vecs: Seq<Vec<char>>) -> Seq<Seq<char>> {
    Seq::new(vecs.len(), |k: int| vecs[k]@)
}

/// Of two texts, one comes before the other or they are equal.
pub proof fn lemma_text_le_total(a: Seq<char>, b: Seq<char>)
    ensures
        text_le(a, b) || text_le(b, a),
        text_le(a, b) && text_le(b, a) ==> a == b,
    decreases a.len(),
{
    if a.len() > 0 && b.len() > 0 && a[0] == b[0] {
        lemma_text_le_total(a.drop_first(), b.drop_first());
        if text_le(a, b) && text_le(b, a) {
            assert(a =~= seq![a[0]] + a.drop_first());
            assert(b =~= seq![b[0]] + b.drop_first());
        }
    } else if text_le(a, b) && text_le(b, a) {
        assert(a =~= b);
    }
}

/// The lexicographic order is transitive.
pub proof fn lemma_text_le_transitive(a: Seq<char>, b: Seq<char>, c: Seq<char>)
    requires
        text_le(a, b),
        text_le(b, c),
    ensures
        text_le(a, c),
    decreases a.len(),
{
    if a.len() > 0 && b.len() > 0 && c.len() > 0 && a[0] == b[0] && b[0] == c[0] {
        lemma_text_le_transitive(a.drop_first(), b.drop_first(), c.drop_first());
    }
}

/// Tests whether `a` comes before `b`, or is `b`, in lexicographic order.
pub fn text_le_exec(a: &Vec<char>, b: &Vec<char>) -> (r: bool)
    ensures
        r == text_le(a@, b@),
{
    let mut i: usize = 0;
    assert(a@.skip(0) =~= a@ && b@.skip(0) =~= b@);
    while i < a.len() && i < b.len()
        invariant
            i <= a.len(),
            i <= b.len(),
            text_le(a@, b@) == text_le(a@.skip(i as int), b@.skip(i as int)),
        decreases a.len() - i,
    {
        let ghost ra = a@.skip(i as int);
        let ghost rb = b@.skip(i as int);
        assert(ra[0] == a@[i as int] && rb[0] == b@[i as int]);
        assert(ra.drop_first() =~= a@.skip(i + 1));
        assert(rb.drop_first() =~= b@.skip(i + 1));
        let x: char = a[i];
        let y: char = b[i];
        if x != y {
            return x < y;
        }
        i += 1;
    }
    i == a.len()
}

/// Puts `name` in its place among the sorted `names`.
fn insert_sorted(names: &mut Vec<Vec<char>>, name: Vec<char>)
    requires
        sorted(vec_texts(old(names)@)),
    ensures
        sorted(vec_texts(final(names)@)),
        vec_texts(final(names)@).to_multiset() == vec_texts(old(names)@).to_multiset().insert(
            name@,
        ),
{
    let ghost before = vec_texts(names@);
    let mut p: usize = 0;
    while p < names.len() && text_le_exec(&names[p], &name)
        invariant
            p <= names.len(),
            *names == *old(names),
            before == vec_texts(names@),
            forall|j: int| 0 <= j < p ==> text_le(#[trigger] before[j], name@),
        decreases names.len() - p,
    {
        p += 1;
    }
    names.insert(p, name);
    proof {
        let after = vec_texts(names@);
        assert(after =~= before.insert(p as int, name@));
        to_multiset_insert(before, p as int, name@);
        if p < before.len() {
            lemma_text_le_total(before[p as int], name@);
        }
        assert forall|i: int, j: int| 0 <= i <= j < after.len() implies text_le(
            after[i],
            after[j],
        ) by {
            if i == j {
                lemma_text_le_total(after[i], after[i]);
            } else if j < p {
                assert(after[i] == before[i] && after[j] == before[j]);
            } else if j == p {
                assert(after[i] == before[i]);
            } else if i < p {
                assert(after[i] == before[i] && after[j] == before[j - 1]);
            } else if i == p {
                assert(after[j] == before[j - 1]);
                lemma_text_le_transitive(name@, before[p as int], before[j - 1]);
            } else {
                assert(after[i] == before[i - 1] && after[j] == before[j - 1]);
            }
        }
    }
}

/// The names of the configurations among the files of the directory, in
/// lexicographic order. `file_names` holds the name of each file found there;
/// a directory that is missing or empty has none, and then no configuration.
pub fn list_configs(file_names: &Vec<String>) -> (names: Vec<String>)
    ensures
        sorted(texts(names@)),
        texts(names@).to_multiset() == config_names(texts(file_names@)).to_multiset(),
        names.len() == config_names(texts(file_names@)).len(),
{
    let ghost files = texts(file_names@);
    let mut found: Vec<Vec<char>> = Vec::new();
    let mut k: usize = 0;
    assert(files.take(0) =~= Seq::<Seq<char>>::empty());
    assert(vec_texts(found@) =~= Seq::<Seq<char>>::empty());
    broadcast use vstd::seq_lib::group_to_multiset_ensures;
    while k < file_names.len()
        invariant
            k <= file_names.len(),
            files == texts(file_names@),
            sorted(vec_texts(found@)),
            vec_texts(found@).to_multiset() == config_names(files.take(k as int)).to_multiset(),
        decreases file_names.len() - k,
    {
        let chars = to_chars(file_names[k].as_str());
        let n = chars.len();
        proof {
            assert(files.take(k + 1).drop_last() =~= files.take(k as int));
            assert(files.take(k + 1).last() == chars@);
            if n > 5 {
                assert(chars@.subrange(n - 5, n as int) =~= chars@.skip(n - 5));
                assert(chars@.subrange(0, n - 5) =~= chars@.take(n - 5));
            }
        }
        if n > 5 && range_is(&chars, n - 5, n, ".conf") {
            let mut stem = chars;
            stem.truncate(n - 5);
            proof {
                to_multiset_build(config_names(files.take(k as int)), stem@);
            }
            insert_sorted(&mut found, stem);
        }
        k += 1;
    }
    assert(files.take(k as int) =~= files);
    let mut names: Vec<String> = Vec::new();
    let mut i: usize = 0;
    while i < found.len()
        invariant
            i <= found.len(),
            names.len() == i,
            forall|j: int| 0 <= j < i ==> (#[trigger] names@[j])@ == found@[j]@,
        decreases found.len() - i,
    {
        let name = to_string(&found[i], 0, found[i].len());
        assert(found@[i as int]@.subrange(0, found@[i as int]@.len() as int) =~= found@[i as int]@);
        names.push(name);
        i += 1;
    }
    assert(texts(names@) =~= vec_texts(found@));
    proof {
        to_multiset_len(texts(names@));
        to_multiset_len(config_names(files));
    }
    names
}

/// The name of the file that holds the configuration `name`.
pub fn config_file_name(name: &str) -> (file_name: String)
    ensures
        file_name@ == name@ + ".conf"@,
{
    name.to_owned().concat(".conf")
}

/// The file of a configuration is listed under the configuration's name,
/// provided that the name is not empty.
pub proof fn lemma_file_name_lists(name: Seq<char>)
    requires
        name.len() > 0,
    ensures
        config_name(name + ".conf"@) == Some(name),
{
    reveal_strlit(".conf");
    let file = name + ".conf"@;
    assert(file.skip(file.len() - 5) =~= ".conf"@);
    assert(file.take(file.len() - 5) =~= name);
}

} // verus!
