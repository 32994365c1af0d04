//! The hierarchy panel: the title of the scene, its root entities in order,
//! the labels of entities and the selection after a deletion.

use vstd::prelude::*;
use crate::map_manager::Entity;
use crate::paths::{file_name_of, file_stem_of_path, name_stem};
use crate::text::push_char;

verus! {

broadcast use {vstd::string::group_string_axioms, vstd::seq_lib::group_to_multiset_ensures};

/// The decimal digit of a value below ten.
pub open spec fn digit_char(d: nat) -> char {
    if d == 0 {
        '0'
    } else if d == 1 {
        '1'
    } else if d == 2 {
        '2'
    } else if d == 3 {
        '3'
    } else if d == 4 {
        '4'
    } else if d == 5 {
        '5'
    } else if d == 6 {
        '6'
    } else if d == 7 {
        '7'
    } else if d == 8 {
        '8'
    } else {
        '9'
    }
}

/// A number written in decimal, without leading zeros.
pub open spec fn decimal(n: nat) -> Seq<char>
    decreases n,
{
    if n < 10 {
        seq![digit_char(n)]
    } else {
        decimal(n / 10).push(digit_char(n % 10))
    }
}

/// The digit of a value below ten.
fn digit_of(d: u64) -> (c: char)
    requires
        d < 10,
    ensures
        c == digit_char(d as nat),
{
    if d == 0 {
        '0'
    } else if d == 1 {
        '1'
    } else if d == 2 {
        '2'
    } else if d == 3 {
        '3'
    } else if d == 4 {
        '4'
    } else if d == 5 {
        '5'
    } else if d == 6 {
        '6'
    } else if d == 7 {
        '7'
    } else if d == 8 {
        '8'
    } else {
        '9'
    }
}

/// A number written in decimal.
pub fn decimal_text(n: u64) -> (text: String)
    ensures
        text@ == decimal(n as nat),
{
    let mut digits: Vec<char> = Vec::new();
    let mut m = n;
    loop
        invariant_except_break
            decimal(n as nat) == decimal(m as nat) + digits@.reverse(),
        ensures
            decimal(n as nat) == digits@.reverse(),
        decreases m,
    {
        let ghost before = digits@;
        digits.push(digit_of(m % 10));
        if m < 10 {
            proof {
                assert(digits@.reverse() =~= seq![digit_char(m as nat)] + before.reverse());
            }
            break;
        }
        proof {
            assert(digits@.reverse() =~= seq![digit_char((m % 10) as nat)] + before.reverse());
            assert(decimal(m as nat) == decimal((m / 10) as nat).push(digit_char((m % 10) as nat)));
            assert(decimal((m / 10) as nat).push(digit_char((m % 10) as nat)) + before.reverse()
                =~= decimal((m / 10) as nat) + (seq![digit_char((m % 10) as nat)] + before.reverse()));
        }
        m = m / 10;
    }
    let mut text = String::new();
    let mut i = digits.len();
    while i > 0
        invariant
            i <= digits@.len(),
            text@ == digits@.subrange(i as int, digits@.len() as int).reverse(),
        decreases i,
    {
        let ghost before = text@;
        push_char(&mut text, digits[i - 1]);
        proof {
            assert(digits@.subrange(i - 1, digits@.len() as int).reverse() =~= before.push(digits@[i - 1]));
        }
        i -= 1;
    }
    proof {
        assert(digits@.subrange(0, digits@.len() as int) =~= digits@);
    }
    text
}

/// The label of an entity: its name, or `Entity` and its number.
pub open spec fn entity_label_text(name: Option<Seq<char>>, entity: Entity) -> Seq<char> {
    match name {
        Some(n) => n,
        None => "Entity "@ + decimal(entity as nat),
    }
}

/// The label the hierarchy shows for an entity.
pub fn entity_label(name: Option<&String>, entity: Entity) -> (label: String)
    ensures
        label@ == entity_label_text(
            match name {
                Some(n) => Some(n@),
                None => None,
            },
            entity,
        ),
{
    match name {
        Some(n) => n.clone(),
        None => {
            let mut label = String::from_str("Entity ");
            let number = decimal_text(entity);
            label.append(number.as_str());
            label
        },
    }
}

/// The title of the scene node: the stem of the scene file's name, `Untitled`
/// when its path has no file name, `Untitled Scene` without a scene file.
pub open spec fn scene_title_text(path: Option<Seq<char>>) -> Seq<char> {
    match path {
        None => "Untitled Scene"@,
        Some(p) => match file_name_of(p) {
            Some(n) => name_stem(n),
            None => "Untitled"@,
        },
    }
}

/// The title of the scene node of the hierarchy.
pub fn scene_title(current_scene_path: &Option<String>) -> (title: String)
    ensures
        title@ == scene_title_text(
            match current_scene_path {
                Some(p) => Some(p@),
                None => None,
            },
        ),
{
    match current_scene_path {
        None => String::from_str("Untitled Scene"),
        Some(p) => match file_stem_of_path(p.as_str()) {
            Some(stem) => stem,
            None => String::from_str("Untitled"),
        },
    }
}

/// A named entity and whether it has a parent.
#[derive(Debug, Clone, Copy, PartialEq, Eq, Structural)]
pub struct NamedEntity {
    pub entity: Entity,
    pub has_parent: bool,
}

/// The entities without a parent, in their order.
pub open spec fn roots_of(es: Seq<NamedEntity>) -> Seq<Entity>
    decreases es.len(),
{
    if es.len() == 0 {
        Seq::empty()
    } else {
        let rest = roots_of(es.drop_last());
        if es.last().has_parent {
            rest
        } else {
            rest.push(es.last().entity)
        }
    }
}

/// The values ascend.
pub open spec fn ascending(s: Seq<Entity>) -> bool {
    forall|i: int, j: int| 0 <= i <= j < s.len() ==> s[i] <= s[j]
}

/// The root entities of the hierarchy: the named entities without a parent,
/// in ascending order.
pub fn root_entities(named: &Vec<NamedEntity>) -> (roots: Vec<Entity>)
    ensures
        ascending(roots@),
        roots@.to_multiset() == roots_of(named@).to_multiset(),
{
    let mut roots: Vec<Entity> = Vec::new();
    let mut i: usize = 0;
    while i < named.len()
        invariant
            i <= named@.len(),
            ascending(roots@),
            roots@.to_multiset() == roots_of(named@.subrange(0, i as int)).to_multiset(),
        decreases named@.len() - i,
    {
        proof {
            assert(named@.subrange(0, i + 1).drop_last() =~= named@.subrange(0, i as int));
        }
        if !named[i].has_parent {
            let e = named[i].entity;
            let mut p: usize = 0;
            while p < roots.len() && roots[p] <= e
                invariant
                    p <= roots@.len(),
                    forall|k: int| 0 <= k < p ==> roots@[k] <= e,
                decreases roots@.len() - p,
            {
                p += 1;
            }
            let ghost before = roots@;
            roots.insert(p, e);
            proof {
                vstd::seq_lib::to_multiset_insert(before, p as int, e);
                vstd::seq_lib::to_multiset_build(roots_of(named@.subrange(0, i as int)), e);
                assert forall|a: int, b: int| 0 <= a <= b < roots@.len() implies roots@[a] <= roots@[b] by {
                    if b < p {
                        assert(roots@[a] == before[a] && roots@[b] == before[b]);
                    } else if b == p {
                        if a < p {
                            assert(roots@[a] == before[a]);
                        }
                    } else if a < p {
                        assert(roots@[a] == before[a] && roots@[b] == before[b - 1]);
                        assert(before[b - 1] > e || b - 1 < p);
                    } else if a == p {
                        assert(roots@[b] == before[b - 1]);
                    } else {
                        assert(roots@[a] == before[a - 1] && roots@[b] == before[b - 1]);
                    }
                }
            }
        }
        i += 1;
    }
    proof {
        assert(named@.subrange(0, named@.len() as int) =~= named@);
    }
    roots
}

/// The selection after an entity was deleted: cleared when it was the one
/// deleted.
pub fn selection_after_delete(selected: Option<Entity>, deleted: Entity) -> (r: Option<Entity>)
    ensures
        r == (if selected == Some(deleted) {
            None
        } else {
            selected
        }),
{
    match selected {
        Some(s) => if s == deleted {
            None
        } else {
            Some(s)
        },
        None => None,
    }
}

/// An integer written in decimal, with a leading `-` when negative.
pub open spec fn signed_decimal(n: int) -> Seq<char> {
    if n < 0 {
        seq!['-'] + decimal((-n) as nat)
    } else {
        decimal(n as nat)
    }
}

/// An integer written in decimal.
pub fn signed_decimal_text(n: i64) -> (text: String)
    ensures
        text@ == signed_decimal(n as int),
{
    if n < 0 {
        let magnitude: u64 = ((-(n + 1)) as u64) + 1;
        let digits = decimal_text(magnitude);
        let mut text = String::from_str("-");
        text.append(digits.as_str());
        proof {
            reveal_strlit("-");
        }
        text
    } else {
        decimal_text(n as u64)
    }
}

} // verus!
