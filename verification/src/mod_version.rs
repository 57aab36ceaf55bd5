use vstd::prelude::*;
use vstd::string::StrSliceExecFns;

use crate::text::chars_of;
use crate::version::{version_string_to_triplet, version_triplet};

verus! {

pub open spec fn zip_suffix() -> Seq<char> {
    seq!['.', 'z', 'i', 'p']
}

pub open spec fn has_prefix(s: Seq<char>, t: Seq<char>) -> bool {
    t.len() <= s.len() && s.subrange(0, t.len() as int) == t
}

pub open spec fn has_suffix(s: Seq<char>, t: Seq<char>) -> bool {
    t.len() <= s.len() && s.subrange(s.len() - t.len(), s.len() as int) == t
}

/// What follows the last `'_'` of `s`; all of `s` when it has none.
pub open spec fn after_last_underscore(s: Seq<char>) -> Seq<char>
    decreases s.len(),
{
    if s.len() == 0 {
        s
    } else if s.last() == '_' {
        Seq::empty()
    } else {
        after_last_underscore(s.drop_last()).push(s.last())
    }
}

/// `s` with every trailing `".zip"` taken off.
pub open spec fn trim_zip(s: Seq<char>) -> Seq<char>
    decreases s.len(),
{
    if s.len() >= 4 && has_suffix(s, zip_suffix()) {
        trim_zip(s.subrange(0, s.len() - 4))
    } else {
        s
    }
}

/// What an entry of the mod folder is to a mod.
#[derive(Debug, Clone, PartialEq, Eq)]
pub enum ModEntry {
    /// A packed mod, `<name>_<version>.zip`, with the version its file name
    /// gives.
    ZipVersion(String),
    /// An unpacked mod, a folder named like the mod.
    Folder,
    /// Anything else.
    Other,
}

/// `file_name` is a packed copy of the mod `mod_name`: it starts with the
/// name and `'_'`, and ends in `".zip"`.
pub open spec fn zip_of_mod(mod_name: Seq<char>, file_name: Seq<char>) -> bool {
    has_prefix(file_name, mod_name.push('_')) && has_suffix(file_name, zip_suffix())
}

proof fn lemma_after_last_underscore(s: Seq<char>, j: int)
    requires
        0 <= j <= s.len(),
        j == 0 || s[j - 1] == '_',
        forall|k: int| j <= k < s.len() ==> s[k] != '_',
    ensures
        after_last_underscore(s) == s.subrange(j, s.len() as int),
    decreases s.len(),
{
    if s.len() == 0 {
        assert(s.subrange(j, 0) =~= s);
    } else if j == s.len() {
        assert(s.subrange(j, s.len() as int) =~= Seq::<char>::empty());
    } else {
        lemma_after_last_underscore(s.drop_last(), j);
        assert(s.subrange(j, s.len() as int) =~= s.drop_last().subrange(j, s.len() - 1).push(s.last()));
    }
}

/// Whether the characters `cs[from..to]` end with `".zip"`.
fn ends_with_zip(cs: &Vec<char>, from: usize, to: usize) -> (r: bool)
    requires
        from <= to <= cs.len(),
    ensures
        r == (to - from >= 4 && has_suffix(cs@.subrange(from as int, to as int), zip_suffix())),
{
    if to - from < 4 {
        return false;
    }
    let r = cs[to - 4] == '.' && cs[to - 3] == 'z' && cs[to - 2] == 'i' && cs[to - 1] == 'p';
    proof {
        let s = cs@.subrange(from as int, to as int);
        let t = s.subrange(s.len() - 4, s.len() as int);
        if r {
            assert(t =~= zip_suffix());
        } else {
            assert(t[0] != '.' || t[1] != 'z' || t[2] != 'i' || t[3] != 'p');
        }
    }
    r
}

/// How the entry `file_name` of the mod folder stands to the mod
/// `mod_name`: a packed copy gives as version what follows the last `'_'`
/// of its name, with every trailing `".zip"` taken off; an entry named like
/// the mod is its folder.
pub fn classify_mod_entry(mod_name: &str, file_name: &str) -> (r: ModEntry)
    ensures
        match r {
            ModEntry::ZipVersion(v) => zip_of_mod(mod_name@, file_name@) && v@ == trim_zip(
                after_last_underscore(file_name@),
            ),
            ModEntry::Folder => !zip_of_mod(mod_name@, file_name@) && file_name@ == mod_name@,
            ModEntry::Other => !zip_of_mod(mod_name@, file_name@) && file_name@ != mod_name@,
        },
{
    let f = chars_of(file_name);
    let m = chars_of(mod_name);
    let len = f.len();
    let mut prefixed = m.len() < len;
    let mut i: usize = 0;
    while prefixed && i < m.len()
        invariant
            f@ == file_name@,
            m@ == mod_name@,
            len == f.len(),
            i <= m.len(),
            prefixed ==> m.len() < len,
            prefixed ==> forall|k: int| 0 <= k < i ==> f@[k] == m@[k],
            !prefixed ==> !has_prefix(f@, m@.push('_')),
        decreases m.len() - i + if prefixed { 1int } else { 0int },
    {
        if f[i] != m[i] {
            prefixed = false;
            proof {
                let p = m@.push('_');
                if has_prefix(f@, p) {
                    assert(f@.subrange(0, p.len() as int)[i as int] == p[i as int]);
                }
            }
        } else {
            i = i + 1;
        }
    }
    if prefixed {
        if f[m.len()] != '_' {
            prefixed = false;
            proof {
                let p = m@.push('_');
                if has_prefix(f@, p) {
                    assert(f@.subrange(0, p.len() as int)[m.len() as int] == p[m.len() as int]);
                }
            }
        } else {
            proof {
                assert(f@.subrange(0, m.len() + 1) =~= m@.push('_'));
            }
        }
    }
    let zipped = ends_with_zip(&f, 0, len);
    proof {
        assert(f@.subrange(0, len as int) =~= f@);
    }
    if prefixed && zipped {
        let mut j: usize = len;
        while j > 0 && f[j - 1] != '_'
            invariant
                j <= len,
                len == f.len(),
                forall|k: int| j <= k < len ==> f@[k] != '_',
            decreases j,
        {
            j = j - 1;
        }
        proof {
            lemma_after_last_underscore(f@, j as int);
        }
        let mut end: usize = len;
        while ends_with_zip(&f, j, end)
            invariant
                j <= end <= len,
                len == f.len(),
                trim_zip(f@.subrange(j as int, len as int)) == trim_zip(f@.subrange(j as int, end as int)),
            decreases end,
        {
            proof {
                let s = f@.subrange(j as int, end as int);
                assert(s.subrange(0, s.len() - 4) =~= f@.subrange(j as int, end - 4));
            }
            end = end - 4;
        }
        let version = file_name.substring_char(j, end).to_string();
        proof {
            assert(f@ == file_name@);
        }
        return ModEntry::ZipVersion(version);
    }
    let fs = file_name.to_string();
    let ms = mod_name.to_string();
    let same = fs == ms;
    if same {
        ModEntry::Folder
    } else {
        ModEntry::Other
    }
}

/// The mod names whose version comes with the game itself.
pub open spec fn builtin_mod(name: Seq<char>) -> bool {
    name == seq!['b', 'a', 's', 'e'] || name == seq!['s', 'p', 'a', 'c', 'e', '-', 'a', 'g', 'e'] || name
        == seq!['q', 'u', 'a', 'l', 'i', 't', 'y'] || name == seq![
        'e',
        'l',
        'e',
        'v',
        'a',
        't',
        'e',
        'd',
        '-',
        'r',
        'a',
        'i',
        'l',
        's',
    ]
}

/// Whether the mod `name` ships with the game, so that its version is
/// read next to the game's executable.
pub fn is_builtin_mod(name: &str) -> (r: bool)
    ensures
        r == builtin_mod(name@),
{
    let n = name.to_string();
    let base = "base".to_string();
    let space_age = "space-age".to_string();
    let quality = "quality".to_string();
    let rails = "elevated-rails".to_string();
    proof {
        reveal_strlit("base");
        reveal_strlit("space-age");
        reveal_strlit("quality");
        reveal_strlit("elevated-rails");
        assert(base@ =~= seq!['b', 'a', 's', 'e']);
        assert(space_age@ =~= seq!['s', 'p', 'a', 'c', 'e', '-', 'a', 'g', 'e']);
        assert(quality@ =~= seq!['q', 'u', 'a', 'l', 'i', 't', 'y']);
        assert(rails@ =~= seq!['e', 'l', 'e', 'v', 'a', 't', 'e', 'd', '-', 'r', 'a', 'i', 'l', 's']);
    }
    n == base || n == space_age || n == quality || n == rails
}

/// Whether the version `new` read from an unpacked folder replaces `old`.
pub open spec fn folder_replaces(old: Seq<char>, new: Seq<char>) -> bool {
    let a = version_triplet(old);
    let b = version_triplet(new);
    a.0 < b.0 || (a.0 == b.0 && (a.1 < b.1 || (a.1 == b.1 && a.2 <= b.2)))
}

/// An unpacked mod's version replaces the one known so far when it is no
/// older; at equal versions the folder wins.
pub fn folder_version_replaces(old: &str, new: &str) -> (r: bool)
    ensures
        r == folder_replaces(old@, new@),
{
    let a = version_string_to_triplet(old);
    let b = version_string_to_triplet(new);
    a.0 < b.0 || (a.0 == b.0 && (a.1 < b.1 || (a.1 == b.1 && a.2 <= b.2)))
}

/// One entry of the mod folder, met while looking for a mod's version.
///
/// `current` is the version known so far; `folder_version` is what the
/// entry's `info.json` gives when the entry is the mod's folder and holds
/// one. A packed copy sets the version and the scan goes on; the mod's
/// folder with an `info.json` sets it when it is no older and ends the
/// scan; a folder without one, and any other entry, change nothing.
/// The result is the version after the entry, and whether the scan ends.
pub fn mod_scan_step(current: &str, entry: &ModEntry, folder_version: Option<&str>) -> (r: (String, bool))
    ensures
        match entry {
            ModEntry::ZipVersion(v) => r.0@ == v@ && !r.1,
            ModEntry::Folder => match folder_version {
                Some(fv) => r.1 && r.0@ == (if folder_replaces(current@, fv@) {
                    fv@
                } else {
                    current@
                }),
                None => r.0@ == current@ && !r.1,
            },
            ModEntry::Other => r.0@ == current@ && !r.1,
        },
{
    match entry {
        ModEntry::ZipVersion(v) => (v.clone(), false),
        ModEntry::Folder => match folder_version {
            Some(fv) => {
                if folder_version_replaces(current, fv) {
                    (fv.to_string(), true)
                } else {
                    (current.to_string(), true)
                }
            },
            None => (current.to_string(), false),
        },
        ModEntry::Other => (current.to_string(), false),
    }
}

/// A packed mod named `<mod>_<version>.zip` is recognised as the mod, and
/// gives back its version, when the version holds no `'_'` and does not
/// itself end in `".zip"`.
pub proof fn lemma_zip_name_gives_version(m: Seq<char>, v: Seq<char>)
    requires
        !v.contains('_'),
        !(v.len() >= 4 && has_suffix(v, zip_suffix())),
    ensures
        zip_of_mod(m, m.push('_') + v + zip_suffix()),
        trim_zip(after_last_underscore(m.push('_') + v + zip_suffix())) == v,
{
    let p = m.push('_');
    let f = p + v + zip_suffix();
    let j = p.len() as int;
    assert(f.subrange(0, p.len() as int) =~= p);
    assert(f.subrange(f.len() - 4, f.len() as int) =~= zip_suffix());
    assert forall|k: int| j <= k < f.len() implies f[k] != '_' by {
        if k < j + v.len() {
            assert(f[k] == v[k - j]);
            if f[k] == '_' {
                assert(v.contains('_'));
            }
        } else {
            assert(f[k] == zip_suffix()[k - j - v.len()]);
        }
    }
    lemma_after_last_underscore(f, j);
    let w = v + zip_suffix();
    assert(f.subrange(j, f.len() as int) =~= w);
    assert(w.subrange(w.len() - 4, w.len() as int) =~= zip_suffix());
    assert(w.subrange(0, w.len() - 4) =~= v);
    assert(trim_zip(w) == trim_zip(v));
}

/// A folder's version replaces the known one by the order of versions:
/// a newer major version always does and an older never does; at the same
/// major version the minor version decides; at the same major and minor
/// versions the folder wins unless its patch number is lower.
pub proof fn lemma_folder_replaces_by_version_order(old: Seq<char>, new: Seq<char>)
    ensures
        version_triplet(old).0 < version_triplet(new).0 ==> folder_replaces(old, new),
        version_triplet(old).0 > version_triplet(new).0 ==> !folder_replaces(old, new),
        version_triplet(old).0 == version_triplet(new).0 && version_triplet(old).1 < version_triplet(new).1
            ==> folder_replaces(old, new),
        version_triplet(old).0 == version_triplet(new).0 && version_triplet(old).1 > version_triplet(new).1
            ==> !folder_replaces(old, new),
        version_triplet(old).0 == version_triplet(new).0 && version_triplet(old).1 == version_triplet(new).1
            ==> (folder_replaces(old, new) <==> version_triplet(old).2 <= version_triplet(new).2),
{
}

/// Replacing is a total order on versions: a version replaces itself, of
/// two versions one replaces the other, two versions that replace each
/// other are equal, and replacing chains.
pub proof fn lemma_folder_replaces_total_order(a: Seq<char>, b: Seq<char>, c: Seq<char>)
    ensures
        folder_replaces(a, a),
        folder_replaces(a, b) || folder_replaces(b, a),
        folder_replaces(a, b) && folder_replaces(b, a) ==> version_triplet(a) == version_triplet(b),
        folder_replaces(a, b) && folder_replaces(b, c) ==> folder_replaces(a, c),
{
}

} // verus!
