//! The script component of the inspector: the scripts a project offers and
//! the labels of entity parameters.

use vstd::prelude::*;
use crate::hierarchy::{decimal, decimal_text};
use crate::map_manager::Entity;
use crate::text::{
    chars_of, ends_with, ends_with_at, string_of_range, trim_suffix_all, trim_suffix_end, views_of,
};

verus! {

broadcast use vstd::string::group_string_axioms;

/// The extension of script files.
pub open spec fn lua_ext() -> Seq<char> {
    seq!['.', 'l', 'u', 'a']
}

/// The script names among file names: each `.lua` file, without its
/// trailing extensions, in the files' order.
pub open spec fn script_names(files: Seq<Seq<char>>) -> Seq<Seq<char>>
    decreases files.len(),
{
    if files.len() == 0 {
        Seq::empty()
    } else {
        let rest = script_names(files.drop_last());
        if ends_with(files.last(), lua_ext()) {
            rest.push(trim_suffix_all(files.last(), lua_ext()))
        } else {
            rest
        }
    }
}

/// Whether a file name is that of a script: it ends with `.lua`.
pub open spec fn is_script_file() -> spec_fn(Seq<char>) -> bool {
    |f: Seq<char>| ends_with(f, lua_ext())
}

/// The name under which a script file is offered: the file name without its
/// trailing `.lua` extensions.
pub open spec fn script_name_of() -> spec_fn(Seq<char>) -> Seq<char> {
    |f: Seq<char>| trim_suffix_all(f, lua_ext())
}

/// The scripts offered for a folder are its `.lua` files, every one of them
/// and no other file, in the folder's order, each under its name without the
/// `.lua` extensions: every `.lua` file's name is offered, and every offered
/// name is that of one of the `.lua` files.
pub proof fn lemma_script_names_are_the_lua_files(files: Seq<Seq<char>>)
    ensures
        script_names(files) == files.filter(is_script_file()).map_values(script_name_of()),
        forall|i: int|
            0 <= i < files.len() && ends_with(#[trigger] files[i], lua_ext())
                ==> script_names(files).contains(trim_suffix_all(files[i], lua_ext())),
        forall|x: Seq<char>|
            #[trigger] script_names(files).contains(x) ==> exists|i: int|
                0 <= i < files.len() && ends_with(#[trigger] files[i], lua_ext()) && x
                    == trim_suffix_all(files[i], lua_ext()),
    decreases files.len(),
{
    reveal(Seq::filter);
    let p = is_script_file();
    let f = script_name_of();
    if files.len() > 0 {
        let rest = files.drop_last();
        lemma_script_names_are_the_lua_files(rest);
        if p(files.last()) {
            assert(rest.filter(p).push(files.last()).map_values(f) =~= rest.filter(p).map_values(
                f,
            ).push(f(files.last())));
        }
        assert forall|i: int|
            0 <= i < files.len() && ends_with(#[trigger] files[i], lua_ext()) implies script_names(
            files,
        ).contains(trim_suffix_all(files[i], lua_ext())) by {
            if i < files.len() - 1 {
                assert(rest[i] == files[i]);
                let k = choose|k: int|
                    0 <= k < script_names(rest).len() && script_names(rest)[k] == trim_suffix_all(
                        rest[i],
                        lua_ext(),
                    );
                assert(script_names(files)[k] == script_names(rest)[k]);
            } else {
                assert(script_names(files)[script_names(files).len() - 1] == trim_suffix_all(
                    files[i],
                    lua_ext(),
                ));
            }
        }
        assert forall|x: Seq<char>| #[trigger] script_names(files).contains(x) implies exists|i: int|
            0 <= i < files.len() && ends_with(#[trigger] files[i], lua_ext()) && x
                == trim_suffix_all(files[i], lua_ext()) by {
            let k = choose|k: int| 0 <= k < script_names(files).len() && script_names(files)[k] == x;
            if k < script_names(rest).len() {
                assert(script_names(rest)[k] == x);
                assert(script_names(rest).contains(x));
                let i = choose|i: int|
                    0 <= i < rest.len() && ends_with(#[trigger] rest[i], lua_ext()) && x
                        == trim_suffix_all(rest[i], lua_ext());
                assert(files[i] == rest[i]);
            } else {
                assert(files[files.len() - 1] == files.last());
            }
        }
    }
}

/// The scripts that the script picker offers, from the names of the files
/// of a project's script folder.
pub fn available_scripts(file_names: &Vec<String>) -> (scripts: Vec<String>)
    ensures
        views_of(scripts@) == script_names(views_of(file_names@)),
{
    let ext = chars_of(".lua");
    proof {
        reveal_strlit(".lua");
        assert(ext@ =~= lua_ext());
    }
    let ghost names = views_of(file_names@);
    let mut scripts: Vec<String> = Vec::new();
    let mut i: usize = 0;
    while i < file_names.len()
        invariant
            i <= file_names@.len(),
            names == views_of(file_names@),
            ext@ == lua_ext(),
            views_of(scripts@) == script_names(names.subrange(0, i as int)),
        decreases file_names@.len() - i,
    {
        let name = chars_of(file_names[i].as_str());
        proof {
            assert(name@.subrange(0, name@.len() as int) =~= name@);
            assert(names.subrange(0, i + 1).drop_last() =~= names.subrange(0, i as int));
            assert(names.subrange(0, i + 1).last() == file_names@[i as int]@);
        }
        let ghost before = scripts@;
        if ends_with_at(&name, name.len(), &ext) {
            let e = trim_suffix_end(&name, &ext);
            let script = string_of_range(&name, 0, e);
            scripts.push(script);
            proof {
                assert(views_of(scripts@) =~= views_of(before).push(trim_suffix_all(name@, lua_ext())));
            }
        }
        i += 1;
    }
    proof {
        assert(names.subrange(0, file_names@.len() as int) =~= names);
    }
    scripts
}

/// The label of an entity parameter: `None` when unset, the entity's name
/// and number when it has a name, else `Entity` and its number.
pub open spec fn entity_reference_text(entity: Option<Entity>, name: Option<Seq<char>>) -> Seq<char> {
    match entity {
        None => "None"@,
        Some(e) => match name {
            Some(n) => n + " ("@ + decimal(e as nat) + ")"@,
            None => "Entity "@ + decimal(e as nat),
        },
    }
}

/// The label of an entity parameter, given the entity's name if it has one.
pub fn entity_reference_label(entity: Option<Entity>, name: Option<&String>) -> (label: String)
    ensures
        label@ == entity_reference_text(
            entity,
            match name {
                Some(n) => Some(n@),
                None => None,
            },
        ),
{
    match entity {
        None => String::from_str("None"),
        Some(e) => {
            let number = decimal_text(e);
            match name {
                Some(n) => {
                    let mut label = n.clone();
                    label.append(" (");
                    label.append(number.as_str());
                    label.append(")");
                    label
                },
                None => {
                    let mut label = String::from_str("Entity ");
                    label.append(number.as_str());
                    label
                },
            }
        },
    }
}

} // verus!
