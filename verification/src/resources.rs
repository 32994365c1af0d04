//! Navigation of the resources tab of the bottom panel: the current folder,
//! relative to the project, as `/`-separated names.

use vstd::prelude::*;
use crate::hierarchy::{decimal, decimal_text};
use crate::paths::{last_index_in, last_index_of, lemma_last_index_of};
use crate::text::{chars_of, ends_with, ends_with_at, string_of_range};
use vstd::string::StringSliceAdditionalSpecFns;

verus! {

broadcast use vstd::string::group_string_axioms;

/// The folder above `folder`: what comes before its last `/`, or the project
/// root (the empty text) when it has none.
pub open spec fn parent_folder_of(folder: Seq<char>) -> Seq<char> {
    let k = last_index_of(folder, '/');
    if k < 0 {
        Seq::empty()
    } else {
        folder.subrange(0, k)
    }
}

/// The folder above the current one, where the back button leads.
pub fn parent_folder(folder: &str) -> (parent: String)
    ensures
        parent@ == parent_folder_of(folder@),
{
    let f = chars_of(folder);
    match last_index_in(&f, f.len(), '/') {
        Some(k) => {
            proof {
                assert(f@.subrange(0, f@.len() as int) =~= f@);
                lemma_last_index_of(f@, '/');
            }
            string_of_range(&f, 0, k)
        },
        None => {
            proof {
                assert(f@.subrange(0, f@.len() as int) =~= f@);
            }
            String::new()
        },
    }
}

/// The folder `name` inside `folder`.
pub open spec fn child_folder_of(folder: Seq<char>, name: Seq<char>) -> Seq<char> {
    if folder.len() == 0 {
        name
    } else {
        folder + seq!['/'] + name
    }
}

/// The folder `name` inside the current one, where a click on a folder leads.
pub fn child_folder(folder: &str, name: &str) -> (child: String)
    ensures
        child@ == child_folder_of(folder@, name@),
{
    if folder.is_empty() {
        String::from_str(name)
    } else {
        let mut child = String::from_str(folder);
        child.append("/");
        child.append(name);
        proof {
            reveal_strlit("/");
        }
        child
    }
}

/// The breadcrumbs of a folder: each `/`-separated name with the folder it
/// leads to, the path up to and including that name.
pub open spec fn crumbs_of(folder: Seq<char>) -> Seq<(Seq<char>, Seq<char>)>
    decreases folder.len(),
{
    let k = last_index_of(folder, '/');
    if k < 0 {
        seq![(folder, folder)]
    } else {
        proof {
            lemma_last_index_of(folder, '/');
        }
        crumbs_of(folder.subrange(0, k)).push((folder.subrange(k + 1, folder.len() as int), folder))
    }
}

/// The views of name and folder pairs.
pub open spec fn crumb_views(v: Seq<(String, String)>) -> Seq<(Seq<char>, Seq<char>)> {
    v.map_values(|p: (String, String)| (p.0@, p.1@))
}

/// The breadcrumbs of `f[..end]`.
fn crumbs_upto(f: &Vec<char>, end: usize) -> (crumbs: Vec<(String, String)>)
    requires
        end <= f@.len(),
    ensures
        crumb_views(crumbs@) == crumbs_of(f@.subrange(0, end as int)),
    decreases end,
{
    let ghost sub = f@.subrange(0, end as int);
    proof {
        lemma_last_index_of(sub, '/');
    }
    match last_index_in(f, end, '/') {
        None => {
            let whole = string_of_range(f, 0, end);
            let mut v: Vec<(String, String)> = Vec::new();
            v.push((whole.clone(), whole));
            proof {
                assert(crumb_views(v@) =~= seq![(sub, sub)]);
            }
            v
        },
        Some(k) => {
            let mut v = crumbs_upto(f, k);
            let part = string_of_range(f, k + 1, end);
            let path = string_of_range(f, 0, end);
            let ghost before = v@;
            v.push((part, path));
            proof {
                assert(sub.subrange(0, k as int) =~= f@.subrange(0, k as int));
                assert(sub.subrange(k + 1, sub.len() as int) =~= f@.subrange(k + 1, end as int));
                assert(crumb_views(v@) =~= crumb_views(before).push(
                    (f@.subrange(k + 1, end as int), sub),
                ));
            }
            v
        },
    }
}

/// The breadcrumbs of the current folder, each name with the folder it
/// leads to; empty at the project root.
pub fn breadcrumbs(folder: &str) -> (crumbs: Vec<(String, String)>)
    ensures
        folder@.len() == 0 ==> crumbs@.len() == 0,
        folder@.len() > 0 ==> crumb_views(crumbs@) == crumbs_of(folder@),
{
    if folder.is_empty() {
        return Vec::new();
    }
    let f = chars_of(folder);
    proof {
        assert(f@.subrange(0, f@.len() as int) =~= f@);
    }
    crumbs_upto(&f, f.len())
}

/// The longest name shown in full, in bytes.
pub const MAX_NAME_BYTES: usize = 15;

/// The bytes of a long name that are kept before `...`.
pub const KEPT_NAME_BYTES: usize = 12;

/// The name shown on a card: a name of more than fifteen bytes is cut to its
/// first twelve bytes and `...` follows.
pub fn card_display_name(name: &str) -> (shown: String)
    requires
        name.spec_bytes().len() > MAX_NAME_BYTES ==> vstd::utf8::is_char_boundary(
            name.spec_bytes(),
            KEPT_NAME_BYTES as int,
        ),
    ensures
        name.spec_bytes().len() <= MAX_NAME_BYTES ==> shown@ == name@,
        name.spec_bytes().len() > MAX_NAME_BYTES ==> shown@ == vstd::utf8::decode_utf8(
            name.spec_bytes().subrange(0, KEPT_NAME_BYTES as int),
        ) + "..."@,
{
    let byte_count = name.as_bytes().len();
    if byte_count > MAX_NAME_BYTES {
        let (head, _) = name.split_at(KEPT_NAME_BYTES);
        proof {
            vstd::utf8::encode_utf8_decode_utf8(head@);
            assert(head.spec_bytes() == name.spec_bytes().subrange(0, KEPT_NAME_BYTES as int));
            assert(vstd::utf8::decode_utf8(name.spec_bytes().subrange(0, KEPT_NAME_BYTES as int)) == head@);
        }
        let mut shown = String::from_str(head);
        shown.append("...");
        shown
    } else {
        String::from_str(name)
    }
}

/// The extension of scene files.
pub open spec fn scene_suffix() -> Seq<char> {
    seq!['.', 's', 'c', 'e', 'n', 'e']
}

/// Whether a double click on an entry of a folder asks to load it: a file
/// whose name ends with `.scene`.
pub fn opens_as_scene(name: &str, is_dir: bool) -> (load: bool)
    ensures
        load == (!is_dir && ends_with(name@, scene_suffix())),
{
    if is_dir {
        return false;
    }
    let n = chars_of(name);
    let ext = chars_of(".scene");
    proof {
        reveal_strlit(".scene");
        assert(ext@ =~= scene_suffix());
        assert(n@.subrange(0, n@.len() as int) =~= n@);
    }
    ends_with_at(&n, n.len(), &ext)
}

/// The caption of a folder card: its number of entries, or `Empty` when the
/// folder does not exist.
pub open spec fn folder_caption_text(exists: bool, count: usize) -> Seq<char> {
    if exists {
        decimal(count as nat) + " items"@
    } else {
        "Empty"@
    }
}

/// The caption of a folder card.
pub fn folder_caption(exists: bool, count: usize) -> (caption: String)
    ensures
        caption@ == folder_caption_text(exists, count),
{
    if exists {
        let mut caption = decimal_text(count as u64);
        caption.append(" items");
        caption
    } else {
        String::from_str("Empty")
    }
}

/// The place of the last `c` in `a + [c] + b`, when `b` holds no `c`, is
/// the place of that `c`.
pub proof fn lemma_last_index_after(a: Seq<char>, b: Seq<char>, c: char)
    requires
        forall|k: int| 0 <= k < b.len() ==> b[k] != c,
    ensures
        last_index_of(a + seq![c] + b, c) == a.len(),
    decreases b.len(),
{
    let s = a + seq![c] + b;
    if b.len() == 0 {
        assert(s.last() == c);
    } else {
        assert(s.last() == b.last());
        assert(s.drop_last() =~= a + seq![c] + b.drop_last());
        lemma_last_index_after(a, b.drop_last(), c);
    }
}

/// Going into a folder and then back returns to the folder one started
/// from, for a folder name without `/`.
pub proof fn lemma_back_undoes_enter(folder: Seq<char>, name: Seq<char>)
    requires
        forall|k: int| 0 <= k < name.len() ==> name[k] != '/',
    ensures
        parent_folder_of(child_folder_of(folder, name)) == folder,
{
    if folder.len() == 0 {
        lemma_no_char_last_index(name, '/');
        assert(name.subrange(0, 0) =~= Seq::<char>::empty());
    } else {
        lemma_last_index_after(folder, name, '/');
        let child = folder + seq!['/'] + name;
        assert(child.subrange(0, folder.len() as int) =~= folder);
    }
}

/// A text without `c` has no last `c`.
pub proof fn lemma_no_char_last_index(s: Seq<char>, c: char)
    requires
        forall|k: int| 0 <= k < s.len() ==> s[k] != c,
    ensures
        last_index_of(s, c) == -1,
    decreases s.len(),
{
    if s.len() > 0 {
        lemma_no_char_last_index(s.drop_last(), c);
    }
}

} // verus!
