//! Paths as text, with `/` between their components.

use crate::text::{optional_text, split, split_fields, texts};
use vstd::prelude::*;

verus! {

/// Whether a field between two separators names something: it is neither
/// empty nor the directory itself (`.`).
pub open spec fn is_component(field: Seq<char>) -> bool {
    field.len() > 0 && field != seq!['.']
}

/// The components of `fields`, in order.
pub open spec fn only_components(fields: Seq<Seq<char>>) -> Seq<Seq<char>> {
    fields.filter(|field: Seq<char>| is_component(field))
}

/// The components of a path, from the outermost to the innermost: what
/// stands between its separators, but for empty fields and `.`.
pub open spec fn components_of(path: Seq<char>) -> Seq<Seq<char>> {
    only_components(split(path, '/'))
}

/// Whether a path starts at the root.
pub open spec fn absolute(path: Seq<char>) -> bool {
    path.len() > 0 && path[0] == '/'
}

/// `part` adjoined to `base`: an absolute `part` replaces `base`; any other
/// follows it, after a separator unless `base` is empty or ends in one.
pub open spec fn joined(base: Seq<char>, part: Seq<char>) -> Seq<char> {
    if absolute(part) {
        part
    } else if base.len() == 0 || base.last() == '/' {
        base + part
    } else {
        base.push('/') + part
    }
}

/// The last component of a path, unless there is none or it is `..`.
pub open spec fn file_name_of(path: Seq<char>) -> Option<Seq<char>> {
    let components = components_of(path);
    if components.len() == 0 || components.last() == seq!['.', '.'] {
        None
    } else {
        Some(components.last())
    }
}

/// No component is empty, and none holds a separator.
pub proof fn lemma_components_are_names(path: Seq<char>, k: int)
    requires
        0 <= k < components_of(path).len(),
    ensures
        components_of(path)[k].len() > 0,
        !components_of(path)[k].contains('/'),
{
    let fields = split(path, '/');
    let keep = |field: Seq<char>| is_component(field);
    let component = components_of(path)[k];
    fields.lemma_filter_pred(keep, k);
    assert(fields.filter(keep).contains(component));
    fields.lemma_filter_contains_rev(keep, component);
    let at = choose|at: int| 0 <= at < fields.len() && fields[at] == component;
    crate::text::lemma_split_concat(path, '/');
    if component.contains('/') {
        let j = choose|j: int| 0 <= j < component.len() && component[j] == '/';
        assert(fields[at][j] == '/');
    }
}

/// Two different names under one directory are two different paths.
pub proof fn lemma_join_keeps_apart(base: Seq<char>, a: Seq<char>, b: Seq<char>)
    requires
        !absolute(a),
        !absolute(b),
        a != b,
    ensures
        joined(base, a) != joined(base, b),
{
    if base.len() == 0 || base.last() == '/' {
        crate::text::lemma_common_front(base, a, b);
    } else {
        crate::text::lemma_common_front(base.push('/'), a, b);
    }
}

/// Whether `path` starts at the root.
pub fn is_absolute(path: &str) -> (r: bool)
    ensures
        r == absolute(path@),
{
    !path.is_empty() && path.get_char(0) == '/'
}

/// Adjoins `part` to `base`.
pub fn join(base: &str, part: &str) -> (r: String)
    ensures
        r@ == joined(base@, part@),
{
    if is_absolute(part) {
        return part.to_owned();
    }
    let n = base.unicode_len();
    let mut r = base.to_owned();
    if n > 0 && base.get_char(n - 1) != '/' {
        proof {
            reveal_strlit("/");
            assert("/"@ == seq!['/']);
        }
        r.append("/");
    }
    r.append(part);
    r
}

/// The components of `path`.
pub fn components(path: &str) -> (r: Vec<String>)
    ensures
        texts(r@) == components_of(path@),
{
    let fields = split_fields(path, '/');
    let dot = String::from_str(".");
    proof {
        reveal_strlit(".");
        assert(dot@ == seq!['.']);
    }
    let mut kept: Vec<String> = Vec::new();
    let mut i: usize = 0;
    proof {
        assert(texts(fields@).take(0) == Seq::<Seq<char>>::empty());
        reveal(Seq::filter);
        assert(texts(kept@) == Seq::<Seq<char>>::empty());
    }
    while i < fields.len()
        invariant
            i <= fields.len(),
            dot@ == seq!['.'],
            texts(kept@) == only_components(texts(fields@).take(i as int)),
        decreases fields.len() - i,
    {
        let field = &fields[i];
        let ghost seen = texts(fields@).take(i as int);
        let ghost before = texts(kept@);
        proof {
            assert(texts(fields@).take(i + 1) == seen.push(field@));
            seen.lemma_filter_push(field@, |field: Seq<char>| is_component(field));
        }
        if !field.as_str().is_empty() && !(*field == dot) {
            kept.push(field.clone());
            proof {
                assert(texts(kept@) == before.push(field@));
            }
        }
        i += 1;
    }
    proof {
        assert(texts(fields@).take(fields.len() as int) == texts(fields@));
    }
    kept
}

/// The last component of `path`, unless there is none or it is `..`.
pub fn file_name(path: &str) -> (r: Option<String>)
    ensures
        optional_text(r) == file_name_of(path@),
{
    let mut parts = components(path);
    let ghost all = texts(parts@);
    match parts.pop() {
        None => None,
        Some(last) => {
            proof {
                reveal_strlit("..");
                assert(last@ == all.last());
                assert(".."@ == seq!['.', '.']);
            }
            let up = String::from_str("..");
            if last == up {
                None
            } else {
                Some(last)
            }
        },
    }
}

} // verus!
