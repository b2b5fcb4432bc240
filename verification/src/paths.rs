//! Paths as text, with slashes between their parts: components, joining,
//! prefixes, names.
use crate::text::{
    begins_with, cat2, cat3, chars_of, find_char, join_texts, lemma_find_char,
    lemma_find_char_is, lemma_texts_push, same_text, slices, split, split_text, string_of, texts,
};
use vstd::prelude::*;

verus! {

/// A part of a path that does not count: an empty one, and a `.` that is not the
/// first.
pub open spec fn idle_part(part: Seq<char>, first: bool) -> bool {
    part.len() == 0 || (part == "."@ && !first)
}

/// The parts that count.
pub open spec fn counting_parts(parts: Seq<Seq<char>>, first: bool) -> Seq<Seq<char>>
    decreases parts.len(),
{
    if parts.len() == 0 {
        seq![]
    } else if idle_part(parts[0], first) {
        counting_parts(parts.skip(1), false)
    } else {
        seq![parts[0]] + counting_parts(parts.skip(1), false)
    }
}

/// The components of a path: `/` for the root, then the names between slashes.
/// A `.` counts only where a relative path begins with it.
pub open spec fn components_of(path: Seq<char>) -> Seq<Seq<char>> {
    if begins_with(path, "/"@) {
        seq!["/"@] + counting_parts(split_text(path, '/'), true)
    } else {
        counting_parts(split_text(path, '/'), true)
    }
}

pub fn components(path: &str) -> (r: Vec<String>)
    ensures
        texts(r@) == components_of(path@),
{
    let chars: Vec<char> = chars_of(path);
    let parts: Vec<&[char]> = split(&chars, '/');
    let mut out: Vec<String> = Vec::new();
    if crate::text::starts_with(&chars, "/") {
        out.push("/".to_owned());
    }
    let ghost head = texts(out@);
    let ghost all = slices(parts@);
    let n: usize = parts.len();
    let mut i: usize = 0;
    proof {
        assert(all.skip(0) =~= all);
        if begins_with(path@, "/"@) {
            assert(head =~= seq!["/"@]);
        }
        assert(components_of(path@) =~= head + counting_parts(all, true));
    }
    while i < n
        invariant
            n == parts@.len(),
            i <= n,
            all == slices(parts@),
            components_of(path@) == texts(out@) + counting_parts(all.skip(i as int), i == 0),
        decreases n - i,
    {
        broadcast use lemma_texts_push;

        let part: String = string_of(parts[i]);
        let ghost before = texts(out@);
        let ghost rest = all.skip(i as int);
        assert(rest[0] == part@);
        assert(rest.skip(1) =~= all.skip(i + 1));
        if !part.as_str().is_empty() && !(same_text(&part, ".") && i != 0) {
            out.push(part);
            assert(before + (seq![rest[0]] + counting_parts(rest.skip(1), false))
                =~= before.push(rest[0]) + counting_parts(rest.skip(1), false));
        }
        i = i + 1;
    }
    assert(texts(out@) + counting_parts(all.skip(n as int), n == 0) =~= texts(out@));
    out
}

/// Two paths name the same place in the tree: their components agree.
pub open spec fn same_place(a: Seq<char>, b: Seq<char>) -> bool {
    components_of(a) == components_of(b)
}

fn same_list(a: &[String], b: &[String]) -> (r: bool)
    ensures
        r == (texts(a@) == texts(b@)),
{
    if a.len() != b.len() {
        assert(texts(a@).len() != texts(b@).len());
        return false;
    }
    let n: usize = a.len();
    let mut i: usize = 0;
    while i < n
        invariant
            n == a@.len(),
            n == b@.len(),
            i <= n,
            forall|j: int| 0 <= j < i ==> texts(a@)[j] == texts(b@)[j],
        decreases n - i,
    {
        if !same_text(&a[i], &b[i]) {
            assert(texts(a@)[i as int] != texts(b@)[i as int]);
            return false;
        }
        i = i + 1;
    }
    assert(texts(a@) =~= texts(b@));
    true
}

pub fn same_path(a: &str, b: &str) -> (r: bool)
    ensures
        r == same_place(a@, b@),
{
    same_list(&components(a), &components(b))
}

// ---------------------------------------------------------------------------
// Joining
// ---------------------------------------------------------------------------

/// `part` below `base`: an absolute `part` stands for itself, else it is set
/// behind `base` with a slash between, unless there is one or `base` is empty.
pub open spec fn joined(base: Seq<char>, part: Seq<char>) -> Seq<char> {
    if begins_with(part, "/"@) {
        part
    } else if base.len() == 0 || base.last() == '/' {
        base + part
    } else {
        base + "/"@ + part
    }
}

pub fn join(base: &str, part: &str) -> (r: String)
    ensures
        r@ == joined(base@, part@),
{
    let b: Vec<char> = chars_of(base);
    let p: Vec<char> = chars_of(part);
    if crate::text::starts_with(&p, "/") {
        part.to_owned()
    } else if b.len() == 0 || b[b.len() - 1] == '/' {
        cat2(base, part)
    } else {
        cat3(base, "/", part)
    }
}

proof fn lemma_split_joined(a: Seq<char>, b: Seq<char>)
    ensures
        split_text(a + seq!['/'] + b, '/') == split_text(a, '/') + split_text(b, '/'),
    decreases a.len(),
{
    let s = a + seq!['/'] + b;
    let n = find_char(a, '/') as int;
    lemma_find_char(a, '/');
    if n >= a.len() {
        assert(s[a.len() as int] == '/');
        assert forall|j: int| 0 <= j < a.len() implies s[j] != '/' by {
            assert(s[j] == a[j]);
        }
        lemma_find_char_is(s, '/', a.len());
        assert(s.take(a.len() as int) =~= a);
        assert(s.skip(a.len() as int + 1) =~= b);
    } else {
        assert(s[n] == a[n]);
        assert forall|j: int| 0 <= j < n implies s[j] != '/' by {
            assert(s[j] == a[j]);
        }
        lemma_find_char_is(s, '/', n as nat);
        assert(s.take(n) =~= a.take(n));
        let rest = a.skip(n + 1);
        assert(s.skip(n + 1) =~= rest + seq!['/'] + b);
        lemma_split_joined(rest, b);
        assert(seq![a.take(n)] + (split_text(rest, '/') + split_text(b, '/')) =~= (seq![a.take(n)]
            + split_text(rest, '/')) + split_text(b, '/'));
    }
}

proof fn lemma_counting_parts(a: Seq<Seq<char>>, b: Seq<Seq<char>>, first: bool)
    requires
        a.len() > 0,
    ensures
        counting_parts(a + b, first) == counting_parts(a, first) + counting_parts(b, false),
    decreases a.len(),
{
    let s = a + b;
    assert(s[0] == a[0]);
    assert(s.skip(1) =~= a.skip(1) + b);
    if a.len() == 1 {
        assert(a.skip(1) + b =~= b);
        assert(counting_parts(a.skip(1), false) =~= seq![]);
        assert(counting_parts(s, first) =~= counting_parts(a, first) + counting_parts(b, false));
    } else {
        lemma_counting_parts(a.skip(1), b, false);
        assert(counting_parts(s, first) =~= counting_parts(a, first) + counting_parts(b, false));
    }
}

proof fn lemma_first_part(parts: Seq<Seq<char>>)
    requires
        parts.len() > 0,
        parts[0] != "."@,
    ensures
        counting_parts(parts, true) == counting_parts(parts, false),
{
}

proof fn lemma_split_front(s: Seq<char>)
    ensures
        split_text(s, '/').len() > 0,
        s.len() > 0 && s[0] == '/' ==> split_text(s, '/')[0].len() == 0,
        begins_with(s, "/"@) <==> s.len() > 0 && s[0] == '/',
{
    reveal_strlit("/");
    assert("/"@ =~= seq!['/']);
    if s.len() > 0 {
        assert(s.take(1)[0] == s[0]);
        assert("/"@[0] == '/');
        if s[0] == '/' {
            assert(s.take(1) =~= "/"@);
        }
    }
    lemma_find_char(s, '/');
}

/// The components of a join are those of the two paths, one list after the
/// other. The base is not empty, and the part is relative and does not begin
/// with a `.` of its own.
pub proof fn law_join_components(base: Seq<char>, part: Seq<char>)
    requires
        base.len() > 0,
        !begins_with(part, "/"@),
        split_text(part, '/')[0] != "."@,
    ensures
        components_of(joined(base, part)) == components_of(base) + components_of(part),
{
    reveal_strlit("/");
    assert("/"@ =~= seq!['/']);
    let whole = joined(base, part);
    lemma_split_front(base);
    lemma_split_front(part);
    lemma_split_front(whole);
    assert(whole[0] == base[0]);
    let q = split_text(part, '/');
    lemma_first_part(q);
    if base.last() == '/' {
        let front = base.drop_last();
        let none: Seq<char> = seq![];
        assert(base + part =~= front + seq!['/'] + part);
        assert(base =~= front + seq!['/'] + none);
        lemma_split_joined(front, part);
        lemma_split_joined(front, none);
        lemma_split_front(front);
        let p = split_text(front, '/');
        lemma_counting_parts(p, q, true);
        lemma_counting_parts(p, split_text(none, '/'), true);
        assert(split_text(none, '/') =~= seq![none]);
        let one = seq![none];
        assert(one.skip(1) =~= Seq::<Seq<char>>::empty());
        assert(idle_part(one[0], false));
        assert(counting_parts(one.skip(1), false) =~= seq![]);
        assert(counting_parts(one, false) =~= seq![]);
        assert(counting_parts(p, true) + seq![] =~= counting_parts(p, true));
    } else {
        assert(base + "/"@ + part =~= base + seq!['/'] + part);
        lemma_split_joined(base, part);
        lemma_counting_parts(split_text(base, '/'), q, true);
    }
    assert(components_of(whole) =~= components_of(base) + components_of(part));
}

// ---------------------------------------------------------------------------
// Prefixes
// ---------------------------------------------------------------------------

/// `path` lies at or below `base`: its components begin with those of `base`.
pub open spec fn lies_below(path: Seq<char>, base: Seq<char>) -> bool {
    let b = components_of(base);
    b.len() <= components_of(path).len() && components_of(path).take(b.len() as int) == b
}

/// The path with the components given, in its shortest form.
pub open spec fn path_of(parts: Seq<Seq<char>>) -> Seq<char> {
    if parts.len() > 0 && parts[0] == "/"@ {
        "/"@ + join_texts(parts.skip(1), "/"@)
    } else {
        join_texts(parts, "/"@)
    }
}

/// The part of `path` below `base`.
pub open spec fn part_below(path: Seq<char>, base: Seq<char>) -> Seq<char> {
    path_of(components_of(path).skip(components_of(base).len() as int))
}

fn front_matches(path: &[String], base: &[String]) -> (r: bool)
    ensures
        r == (base@.len() <= path@.len() && texts(path@).take(base@.len() as int) == texts(base@)),
{
    if base.len() > path.len() {
        return false;
    }
    let n: usize = base.len();
    let mut i: usize = 0;
    while i < n
        invariant
            n == base@.len(),
            n <= path@.len(),
            i <= n,
            forall|j: int| 0 <= j < i ==> texts(path@)[j] == texts(base@)[j],
        decreases n - i,
    {
        if !same_text(&path[i], &base[i]) {
            assert(texts(path@).take(n as int)[i as int] != texts(base@)[i as int]);
            return false;
        }
        i = i + 1;
    }
    assert(texts(path@).take(n as int) =~= texts(base@));
    true
}

pub fn starts_with(path: &str, base: &str) -> (r: bool)
    ensures
        r == lies_below(path@, base@),
{
    front_matches(&components(path), &components(base))
}

pub fn strip_prefix(path: &str, base: &str) -> (r: Option<String>)
    ensures
        match r {
            Some(part) => lies_below(path@, base@) && part@ == part_below(path@, base@),
            None => !lies_below(path@, base@),
        },
{
    let p: Vec<String> = components(path);
    let b: Vec<String> = components(base);
    if !front_matches(&p, &b) {
        return None;
    }
    let rest: &[String] = vstd::slice::slice_subrange(&p, b.len(), p.len());
    assert(texts(rest@) =~= components_of(path@).skip(b@.len() as int));
    if rest.len() > 0 {
        assert(texts(rest@)[0] == rest@[0]@);
        if same_text(&rest[0], "/") {
            let names: &[String] = vstd::slice::slice_subrange(rest, 1, rest.len());
            assert(texts(names@) =~= texts(rest@).skip(1));
            return Some(cat2("/", &crate::text::join(names, "/")));
        }
    }
    Some(crate::text::join(rest, "/"))
}

/// A name: not empty, without a slash, and not `.`.
pub open spec fn is_name(part: Seq<char>) -> bool {
    part.len() > 0 && !part.contains('/') && part != "."@
}

proof fn lemma_split_parts(s: Seq<char>)
    ensures
        forall|i: int|
            0 <= i < split_text(s, '/').len() ==> !(#[trigger] split_text(s, '/')[i]).contains('/'),
    decreases s.len(),
{
    let n = find_char(s, '/') as int;
    let all = split_text(s, '/');
    lemma_find_char(s, '/');
    if n < s.len() {
        lemma_split_parts(s.skip(n + 1));
        let rest = split_text(s.skip(n + 1), '/');
        assert forall|i: int| 0 <= i < all.len() implies !(#[trigger] all[i]).contains('/') by {
            if i == 0 {
                assert forall|j: int| 0 <= j < n implies s.take(n)[j] != '/' by {
                    assert(s.take(n)[j] == s[j]);
                }
            } else {
                assert(all[i] == rest[i - 1]);
            }
        }
    }
}

proof fn lemma_counting_names(parts: Seq<Seq<char>>, first: bool)
    requires
        forall|i: int| 0 <= i < parts.len() ==> !(#[trigger] parts[i]).contains('/'),
    ensures
        ({
            let out = counting_parts(parts, first);
            forall|i: int|
                0 <= i < out.len() ==> {
                    &&& (#[trigger] out[i]).len() > 0
                    &&& !out[i].contains('/')
                    &&& out[i] == "."@ ==> i == 0 && first
                }
        }),
    decreases parts.len(),
{
    if parts.len() > 0 {
        let rest = parts.skip(1);
        assert forall|i: int| 0 <= i < rest.len() implies !(#[trigger] rest[i]).contains('/') by {
            assert(rest[i] == parts[i + 1]);
        }
        lemma_counting_names(rest, false);
        let out = counting_parts(parts, first);
        let less = counting_parts(rest, false);
        if !idle_part(parts[0], first) {
            assert forall|i: int| 0 <= i < out.len() implies {
                &&& (#[trigger] out[i]).len() > 0
                &&& !out[i].contains('/')
                &&& out[i] == "."@ ==> i == 0 && first
            } by {
                if i > 0 {
                    assert(out[i] == less[i - 1]);
                }
            }
        }
    }
}

proof fn lemma_components_names(path: Seq<char>)
    ensures
        forall|i: int|
            0 < i < components_of(path).len() ==> is_name(#[trigger] components_of(path)[i]),
        path.len() > 0 ==> components_of(path).len() > 0,
{
    let parts = split_text(path, '/');
    let out = counting_parts(parts, true);
    lemma_split_parts(path);
    lemma_split_front(path);
    lemma_counting_names(parts, true);
    if begins_with(path, "/"@) {
        let rest = parts.skip(1);
        assert forall|i: int| 0 <= i < rest.len() implies !(#[trigger] rest[i]).contains('/') by {
            assert(rest[i] == parts[i + 1]);
        }
        lemma_counting_names(rest, false);
        assert(out == counting_parts(rest, false));
        assert forall|i: int| 0 < i < components_of(path).len() implies is_name(
            #[trigger] components_of(path)[i],
        ) by {
            assert(components_of(path)[i] == out[i - 1]);
        }
    } else if path.len() > 0 {
        lemma_find_char(path, '/');
        assert(parts[0].len() > 0);
    }
}

proof fn lemma_split_join(parts: Seq<Seq<char>>)
    requires
        parts.len() > 0,
        forall|i: int| 0 <= i < parts.len() ==> is_name(#[trigger] parts[i]),
    ensures
        split_text(join_texts(parts, "/"@), '/') == parts,
        join_texts(parts, "/"@).len() > 0,
        join_texts(parts, "/"@)[0] == parts[0][0],
    decreases parts.len(),
{
    reveal_strlit("/");
    assert("/"@ =~= seq!['/']);
    let head = parts[0];
    assert(is_name(parts[0]));
    assert forall|j: int| 0 <= j < head.len() implies head[j] != '/' by {
        assert(head.contains(head[j]));
    }
    lemma_find_char_is(head, '/', head.len());
    assert(split_text(head, '/') =~= seq![head]);
    if parts.len() == 1 {
        assert(parts =~= seq![head]);
    } else {
        let rest = parts.skip(1);
        assert forall|i: int| 0 <= i < rest.len() implies is_name(#[trigger] rest[i]) by {
            assert(rest[i] == parts[i + 1]);
        }
        lemma_split_join(rest);
        lemma_split_joined(head, join_texts(rest, "/"@));
        assert(join_texts(parts, "/"@) =~= head + seq!['/'] + join_texts(rest, "/"@));
        assert(seq![head] + rest =~= parts);
    }
}

proof fn lemma_names_count(parts: Seq<Seq<char>>, first: bool)
    requires
        forall|i: int| 0 <= i < parts.len() ==> is_name(#[trigger] parts[i]),
    ensures
        counting_parts(parts, first) == parts,
    decreases parts.len(),
{
    if parts.len() > 0 {
        let rest = parts.skip(1);
        assert(is_name(parts[0]));
        assert forall|i: int| 0 <= i < rest.len() implies is_name(#[trigger] rest[i]) by {
            assert(rest[i] == parts[i + 1]);
        }
        lemma_names_count(rest, false);
        assert(seq![parts[0]] + rest =~= parts);
    } else {
        assert(counting_parts(parts, first) =~= parts);
    }
}

/// What is left of a path below another leads back to the path: joined to the
/// other it names the same place.
pub proof fn law_part_below_leads_back(path: Seq<char>, base: Seq<char>)
    requires
        base.len() > 0,
        lies_below(path, base),
    ensures
        same_place(joined(base, part_below(path, base)), path),
{
    reveal_strlit("/");
    assert("/"@ =~= seq!['/']);
    let all = components_of(path);
    let n = components_of(base).len() as int;
    let rest = all.skip(n);
    lemma_components_names(path);
    lemma_components_names(base);
    assert forall|i: int| 0 <= i < rest.len() implies is_name(#[trigger] rest[i]) by {
        assert(rest[i] == all[i + n]);
    }
    let text = part_below(path, base);
    if rest.len() > 0 {
        assert(is_name(rest[0]));
        assert(rest[0] != "/"@) by {
            if rest[0] == "/"@ {
                assert(rest[0][0] == '/');
                assert(rest[0].contains('/'));
            }
        }
        lemma_split_join(rest);
        assert(text[0] != '/') by {
            assert(rest[0].contains(rest[0][0]));
        }
        lemma_split_front(text);
        lemma_names_count(rest, true);
        assert(components_of(text) == rest);
    } else {
        let none: Seq<char> = seq![];
        assert(text =~= none);
        lemma_split_front(text);
        lemma_find_char(text, '/');
        assert(split_text(text, '/') =~= seq![none]);
        let one = seq![none];
        assert(one.skip(1) =~= Seq::<Seq<char>>::empty());
        assert(counting_parts(one.skip(1), false) =~= seq![]);
        assert(idle_part(one[0], true));
        assert(counting_parts(one, true) =~= rest);
        reveal_strlit(".");
        assert(split_text(text, '/')[0] != "."@) by {
            assert("."@.len() == 1);
        }
    }
    law_join_components(base, text);
    assert(components_of(base) + rest =~= all);
}

/// A name joined to a path names something directly below it.
pub proof fn law_child_components(base: Seq<char>, name: Seq<char>)
    requires
        base.len() > 0,
        is_name(name),
    ensures
        components_of(joined(base, name)) == components_of(base).push(name),
{
    reveal_strlit("/");
    assert("/"@ =~= seq!['/']);
    assert forall|i: int| 0 <= i < name.len() implies name[i] != '/' by {
        assert(name.contains(name[i]));
    }
    lemma_find_char_is(name, '/', name.len());
    lemma_split_front(name);
    let one = seq![name];
    assert(split_text(name, '/') =~= one);
    assert forall|i: int| 0 <= i < one.len() implies is_name(#[trigger] one[i]) by {
        assert(one[i] == name);
    }
    lemma_names_count(one, true);
    assert(name[0] != '/');
    law_join_components(base, name);
    assert(components_of(base) + one =~= components_of(base).push(name));
}

/// Different names below one path name different places.
pub proof fn law_children_are_apart(base: Seq<char>, a: Seq<char>, b: Seq<char>)
    requires
        base.len() > 0,
        is_name(a),
        is_name(b),
        a != b,
    ensures
        !same_place(joined(base, a), joined(base, b)),
{
    law_child_components(base, a);
    law_child_components(base, b);
    let n = components_of(base).len() as int;
    assert(components_of(base).push(a)[n] == a);
    assert(components_of(base).push(b)[n] == b);
}

/// The same part joined to different places leads to different places.
pub proof fn law_same_part_keeps_apart(a: Seq<char>, b: Seq<char>, part: Seq<char>)
    requires
        a.len() > 0,
        b.len() > 0,
        !begins_with(part, "/"@),
        split_text(part, '/')[0] != "."@,
        !same_place(a, b),
    ensures
        !same_place(joined(a, part), joined(b, part)),
{
    law_join_components(a, part);
    law_join_components(b, part);
    let ca = components_of(a);
    let cb = components_of(b);
    let t = components_of(part);
    assert((ca + t).len() == ca.len() + t.len());
    assert((cb + t).len() == cb.len() + t.len());
    if ca + t == cb + t {
        assert forall|i: int| 0 <= i < ca.len() implies ca[i] == cb[i] by {
            assert((ca + t)[i] == ca[i]);
            assert((cb + t)[i] == cb[i]);
        }
        assert(ca =~= cb);
    }
}

// ---------------------------------------------------------------------------
// Names
// ---------------------------------------------------------------------------

/// The name that a list of components ends in. A root, a `..` and a leading `.`
/// are no names.
pub open spec fn last_name(parts: Seq<Seq<char>>) -> Option<Seq<char>> {
    if parts.len() == 0 || parts.last() == "/"@ || parts.last() == ".."@ || parts.last() == "."@ {
        None
    } else {
        Some(parts.last())
    }
}

/// The name of a path.
pub open spec fn name_of(path: Seq<char>) -> Option<Seq<char>> {
    last_name(components_of(path))
}

/// The name of what a path lies in.
pub open spec fn parent_name_of(path: Seq<char>) -> Option<Seq<char>> {
    let parts = components_of(path);
    if parts.len() == 0 || parts.last() == "/"@ {
        None
    } else {
        last_name(parts.drop_last())
    }
}

fn last_of(parts: &[String], n: usize) -> (r: Option<String>)
    requires
        n <= parts@.len(),
    ensures
        match r {
            Some(s) => last_name(texts(parts@).take(n as int)) == Some(s@),
            None => last_name(texts(parts@).take(n as int)) is None,
        },
{
    if n == 0 {
        return None;
    }
    let last: &String = &parts[n - 1];
    assert(texts(parts@).take(n as int).last() == last@);
    if same_text(last, "/") || same_text(last, "..") || same_text(last, ".") {
        None
    } else {
        Some(last.clone())
    }
}

pub fn file_name(path: &str) -> (r: Option<String>)
    ensures
        match r {
            Some(s) => name_of(path@) == Some(s@),
            None => name_of(path@) is None,
        },
{
    let parts: Vec<String> = components(path);
    assert(texts(parts@).take(parts@.len() as int) =~= texts(parts@));
    last_of(&parts, parts.len())
}

pub fn parent_name(path: &str) -> (r: Option<String>)
    ensures
        match r {
            Some(s) => parent_name_of(path@) == Some(s@),
            None => parent_name_of(path@) is None,
        },
{
    let parts: Vec<String> = components(path);
    if parts.len() == 0 {
        return None;
    }
    assert(texts(parts@).last() == parts@.last()@);
    if same_text(&parts[parts.len() - 1], "/") {
        return None;
    }
    assert(texts(parts@).take(parts@.len() - 1) =~= texts(parts@).drop_last());
    last_of(&parts, parts.len() - 1)
}

/// A relative path is set behind its base with one slash between, whether the base
/// ends in one or not; an absolute path has no base.
pub proof fn law_join_sets_one_slash(base: Seq<char>, part: Seq<char>)
    ensures
        part.len() > 0 && part[0] == '/' ==> joined(base, part) == part,
        part.len() == 0 || part[0] != '/' ==> {
            &&& base.len() == 0 ==> joined(base, part) == part
            &&& base.len() > 0 && base.last() == '/' ==> joined(base, part) == base + part
            &&& base.len() > 0 && base.last() != '/' ==> joined(base, part) == base + seq!['/']
                + part
        },
{
    reveal_strlit("/");
    assert("/"@ =~= seq!['/']);
    if part.len() > 0 {
        assert(part.take(1) =~= seq![part[0]]);
    }
    if base.len() == 0 {
        assert(base + part =~= part);
    }
    if begins_with(part, "/"@) {
        assert(part.take(1)[0] == '/');
    }
    if part.len() > 0 && part[0] == '/' {
        assert(part.take(1) =~= "/"@);
    }
}

proof fn lemma_counted_parts(parts: Seq<Seq<char>>)
    ensures
        counting_parts(parts, false) == parts.filter(
            |part: Seq<char>| part.len() > 0 && part != "."@,
        ),
    decreases parts.len(),
{
    let counts = |part: Seq<char>| part.len() > 0 && part != "."@;
    reveal_with_fuel(Seq::<_>::filter, 2);
    if parts.len() > 0 {
        let rest = parts.skip(1);
        lemma_counted_parts(rest);
        let first = seq![parts[0]];
        assert(parts =~= first + rest);
        Seq::filter_distributes_over_add(first, rest, counts);
        assert(first.drop_last() =~= seq![]);
        assert(first.filter(counts) =~= if counts(parts[0]) {
            first
        } else {
            seq![]
        });
        assert(counting_parts(parts, false) =~= first.filter(counts) + rest.filter(counts));
    }
}

/// The components of a path are the root, where it begins with a slash, and what
/// stands between its slashes, without what is empty and without a dot, except where
/// a relative path begins with that.
pub proof fn law_components_stand_between_slashes(path: Seq<char>)
    ensures
        ({
            let parts = split_text(path, '/');
            let inner = parts.skip(1).filter(|part: Seq<char>| part.len() > 0 && part != "."@);
            &&& path.len() > 0 && path[0] == '/' ==> components_of(path) == seq![seq!['/']] + inner
            &&& path.len() > 0 && path[0] != '/' ==> components_of(path) == seq![parts[0]] + inner
            &&& path.len() == 0 ==> components_of(path).len() == 0
        }),
{
    reveal_strlit("/");
    let parts = split_text(path, '/');
    lemma_counted_parts(parts.skip(1));
    lemma_find_char(path, '/');
    let n = find_char(path, '/') as int;
    assert("/"@ =~= seq!['/']);
    if path.len() > 0 {
        if path[0] == '/' {
            assert(path.take(1) =~= "/"@);
            assert(n == 0);
            assert(parts[0] =~= path.take(0));
            assert(components_of(path) =~= seq![seq!['/']] + counting_parts(parts.skip(1), false));
        } else {
            assert(path.take(1)[0] == path[0]);
            assert(n > 0);
            assert(parts[0].len() > 0);
        }
    } else {
        assert(parts.len() == 1 && parts[0].len() == 0);
        assert(parts.skip(1) =~= seq![]);
    }
}

/// The name of a path is its last component, unless that is the root, a dot or two
/// dots; what it lies in has the name of the one before it.
pub proof fn law_names_are_last_components(path: Seq<char>, name: Seq<char>)
    ensures
        ({
            let parts = components_of(path);
            let proper = name != "/"@ && name != "."@ && name != ".."@;
            &&& name_of(path) == Some(name) <==> parts.len() > 0 && parts[parts.len() - 1] == name
                && proper
            &&& parent_name_of(path) == Some(name) <==> parts.len() > 1 && parts[parts.len() - 1]
                != "/"@ && parts[parts.len() - 2] == name && proper
        }),
{
}

} // verus!
