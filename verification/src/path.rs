//! Lexical path classification, normalization, and project-relative resolution.

use vstd::prelude::*;
use crate::grammar::{safe_mount_part, safe_mount_part_chars};
use crate::charset::{all_in, in_set, Charset};
use crate::text::{chars_of, has_char, join, lemma_split_concat, lemma_split_join, lemma_split_nonempty, split, split_chars, starts_with, string_from};

verus! {

broadcast use vstd::string::group_string_axioms;

/// Lexical form of an authored path value.
#[derive(Clone, Copy, Debug, PartialEq, Eq, Structural)]
pub enum PathForm {
    /// Literal path beginning at the filesystem root.
    AbsoluteLiteral,
    /// `.`, `..`, or a literal path beginning with `./` or `../`.
    UnitRelativeLiteral,
    /// Other literal relative text, including `~`.
    RelativeLiteral,
    /// Text containing at least one `%` that does not start a doubled `%%`.
    SystemdSpecifier,
}

/// Whether `s` holds a `%` that is not part of a doubled `%%`, scanning left to right.
pub open spec fn has_specifier(s: Seq<char>) -> bool
    decreases s.len(),
{
    if s.len() == 0 {
        false
    } else if s[0] == '%' {
        if s.len() >= 2 && s[1] == '%' {
            has_specifier(s.skip(2))
        } else {
            true
        }
    } else {
        has_specifier(s.drop_first())
    }
}

/// The lexical form of `s`.
pub open spec fn path_form(s: Seq<char>) -> PathForm {
    if has_specifier(s) {
        PathForm::SystemdSpecifier
    } else if s.len() > 0 && s[0] == '/' {
        PathForm::AbsoluteLiteral
    } else if s =~= seq!['.'] || s =~= seq!['.', '.'] || starts_with(s, seq!['.', '/']) || starts_with(
        s,
        seq!['.', '.', '/'],
    ) {
        PathForm::UnitRelativeLiteral
    } else {
        PathForm::RelativeLiteral
    }
}

/// Classifies a path spelling with `quadlet_lens::path::classify_path`.
///
/// The contract restates the crate's documented and implemented rule: a `%` not followed by a
/// second `%` makes a specifier expression; otherwise a leading `/` is absolute; `.`, `..`, and
/// `./` or `../` prefixes are unit-relative; anything else is relative.
#[verifier::external_body]
pub(crate) fn classify_path(value: &str) -> (form: PathForm)
    ensures
        form == path_form(value@),
{
    match quadlet_lens::path::classify_path(value) {
        quadlet_lens::path::PathForm::AbsoluteLiteral => PathForm::AbsoluteLiteral,
        quadlet_lens::path::PathForm::UnitRelativeLiteral => PathForm::UnitRelativeLiteral,
        quadlet_lens::path::PathForm::RelativeLiteral => PathForm::RelativeLiteral,
        _ => PathForm::SystemdSpecifier,
    }
}

/// One lexical resolution step: empty and `.` components vanish, `..` removes the last kept
/// component (failing above the root), `~` fails where `refuse_home` holds, and any other
/// component is kept.
pub open spec fn resolve_step(stack: Seq<Seq<char>>, component: Seq<char>, refuse_home: bool) -> Option<
    Seq<Seq<char>>,
> {
    if component.len() == 0 || component =~= seq!['.'] {
        Some(stack)
    } else if component =~= seq!['.', '.'] {
        if stack.len() == 0 {
            None
        } else {
            Some(stack.drop_last())
        }
    } else if refuse_home && component =~= seq!['~'] {
        None
    } else {
        Some(stack.push(component))
    }
}

/// Resolves `components` in order, starting from `start`.
pub open spec fn resolve_all(start: Seq<Seq<char>>, components: Seq<Seq<char>>, refuse_home: bool) -> Option<
    Seq<Seq<char>>,
>
    decreases components.len(),
{
    if components.len() == 0 {
        Some(start)
    } else {
        match resolve_all(start, components.drop_last(), refuse_home) {
            None => None,
            Some(stack) => resolve_step(stack, components.last(), refuse_home),
        }
    }
}

/// `/` followed by the components joined with `/`.
pub open spec fn rooted(components: Seq<Seq<char>>) -> Seq<char> {
    seq!['/'] + join(components, '/')
}

/// The normalized form of an absolute, safely encodable path; `None` when the path is not an
/// absolute literal, holds a character outside the mount-part set, or climbs above `/`.
pub open spec fn normalized_absolute_path(s: Seq<char>) -> Option<Seq<char>> {
    if path_form(s) != PathForm::AbsoluteLiteral || !safe_mount_part(s) {
        None
    } else {
        match resolve_all(Seq::empty(), split(s, '/'), false) {
            None => None,
            Some(stack) => Some(rooted(stack)),
        }
    }
}

/// The non-empty `/`-separated components of `root`.
pub open spec fn root_components(root: Seq<char>) -> Seq<Seq<char>> {
    split(root, '/').filter(|c: Seq<char>| c.len() > 0)
}

/// `relative` resolved lexically against `root`; `None` when it climbs above `/` or names `~`.
pub open spec fn resolved_relative_path(root: Seq<char>, relative: Seq<char>) -> Option<Seq<char>> {
    match resolve_all(root_components(root), split(relative, '/'), true) {
        None => None,
        Some(stack) => Some(rooted(stack)),
    }
}

fn is_text(s: &[char], a: char, b: char, n: usize) -> (r: bool)
    requires
        n == 1 || n == 2,
    ensures
        r == (if n == 1 { s@ =~= seq![a] } else { s@ =~= seq![a, b] }),
{
    if n == 1 {
        s.len() == 1 && s[0] == a
    } else {
        s.len() == 2 && s[0] == a && s[1] == b
    }
}

/// Applies one resolution step to `stack`.
fn step(stack: &mut Vec<Vec<char>>, component: &[char], refuse_home: bool) -> (ok: bool)
    ensures
        match resolve_step(
            old(stack)@.map_values(|c: Vec<char>| c@),
            component@,
            refuse_home,
        ) {
            Some(next) => ok && final(stack)@.map_values(|c: Vec<char>| c@) == next,
            None => !ok,
        },
{
    let ghost before = stack@.map_values(|c: Vec<char>| c@);
    if component.len() == 0 || is_text(component, '.', '.', 1) {
        return true;
    }
    if is_text(component, '.', '.', 2) {
        if stack.len() == 0 {
            return false;
        }
        stack.pop();
        assert(stack@.map_values(|c: Vec<char>| c@) =~= before.drop_last());
        return true;
    }
    if refuse_home && is_text(component, '~', '~', 1) {
        return false;
    }
    let mut owned: Vec<char> = Vec::new();
    let mut i: usize = 0;
    while i < component.len()
        invariant
            i <= component.len(),
            owned@ == component@.take(i as int),
        decreases component.len() - i,
    {
        owned.push(component[i]);
        assert(component@.take(i + 1) =~= component@.take(i as int).push(component@[i as int]));
        i += 1;
    }
    assert(component@.take(component.len() as int) =~= component@);
    stack.push(owned);
    assert(stack@.map_values(|c: Vec<char>| c@) =~= before.push(component@));
    true
}

/// Resolves `parts` onto `stack` in order.
fn resolve_onto(stack: &mut Vec<Vec<char>>, parts: &Vec<Vec<char>>, refuse_home: bool) -> (ok: bool)
    ensures
        match resolve_all(
            old(stack)@.map_values(|c: Vec<char>| c@),
            parts@.map_values(|c: Vec<char>| c@),
            refuse_home,
        ) {
            Some(next) => ok && final(stack)@.map_values(|c: Vec<char>| c@) == next,
            None => !ok,
        },
{
    let ghost start = stack@.map_values(|c: Vec<char>| c@);
    let ghost all = parts@.map_values(|c: Vec<char>| c@);
    let mut k: usize = 0;
    while k < parts.len()
        invariant
            k <= parts@.len(),
            all == parts@.map_values(|c: Vec<char>| c@),
            start == old(stack)@.map_values(|c: Vec<char>| c@),
            resolve_all(start, all.take(k as int), refuse_home) == Some(
                stack@.map_values(|c: Vec<char>| c@),
            ),
        decreases parts@.len() - k,
    {
        assert(all.take(k + 1).drop_last() =~= all.take(k as int));
        assert(all.take(k + 1).last() == parts@[k as int]@);
        let ghost before = stack@.map_values(|c: Vec<char>| c@);
        if !step(stack, parts[k].as_slice(), refuse_home) {
            proof {
                assert(resolve_step(before, all.take(k + 1).last(), refuse_home) is None);
                assert(resolve_all(start, all.take(k + 1), refuse_home) is None);
                lemma_resolve_all_stuck(start, all, k as int + 1, refuse_home);
            }
            return false;
        }
        k += 1;
    }
    assert(all.take(parts@.len() as int) =~= all);
    true
}

/// Once resolution fails on a prefix, it fails on the whole sequence.
pub proof fn lemma_resolve_all_stuck(
    start: Seq<Seq<char>>,
    components: Seq<Seq<char>>,
    k: int,
    refuse_home: bool,
)
    requires
        0 <= k <= components.len(),
        resolve_all(start, components.take(k), refuse_home) is None,
    ensures
        resolve_all(start, components, refuse_home) is None,
    decreases components.len() - k,
{
    if k < components.len() {
        assert(components.take(k + 1).drop_last() =~= components.take(k));
        lemma_resolve_all_stuck(start, components, k + 1, refuse_home);
    } else {
        assert(components.take(k) =~= components);
    }
}

/// `/` followed by `parts` joined with `/`.
fn rooted_chars(parts: &Vec<Vec<char>>) -> (out: Vec<char>)
    ensures
        out@ == rooted(parts@.map_values(|c: Vec<char>| c@)),
{
    let ghost all = parts@.map_values(|c: Vec<char>| c@);
    let mut out: Vec<char> = Vec::new();
    out.push('/');
    let mut k: usize = 0;
    while k < parts.len()
        invariant
            k <= parts@.len(),
            all == parts@.map_values(|c: Vec<char>| c@),
            out@ == seq!['/'] + join(all.take(k as int), '/'),
        decreases parts@.len() - k,
    {
        let ghost prev = out@;
        if k > 0 {
            out.push('/');
        }
        let part = &parts[k];
        let mut i: usize = 0;
        let ghost base = out@;
        while i < part.len()
            invariant
                i <= part@.len(),
                out@ == base + part@.take(i as int),
            decreases part@.len() - i,
        {
            out.push(part[i]);
            assert(part@.take(i + 1) =~= part@.take(i as int).push(part@[i as int]));
            i += 1;
        }
        assert(part@.take(part@.len() as int) =~= part@);
        assert(all.take(k + 1).drop_last() =~= all.take(k as int));
        assert(all.take(k + 1).last() == part@);
        if k == 0 {
            assert(all.take(0) =~= Seq::<Seq<char>>::empty());
            assert(join(all.take(1), '/') == all.take(1)[0]);
            assert(out@ =~= seq!['/'] + join(all.take(k + 1), '/'));
        } else {
            assert(out@ =~= seq!['/'] + join(all.take(k + 1), '/'));
        }
        k += 1;
    }
    assert(all.take(parts@.len() as int) =~= all);
    out
}

/// Normalizes a safely encodable absolute path lexically.
pub fn normalize_absolute_path(value: &str) -> (normalized: Option<String>)
    ensures
        match normalized {
            Some(s) => normalized_absolute_path(value@) == Some(s@),
            None => normalized_absolute_path(value@) is None,
        },
{
    let s = chars_of(value);
    if classify_path(value) != PathForm::AbsoluteLiteral || !safe_mount_part_chars(s.as_slice()) {
        return None;
    }
    let parts = split_chars(s.as_slice(), '/');
    assert(parts@.map_values(|c: Vec<char>| c@) =~= split(s@, '/'));
    let mut stack: Vec<Vec<char>> = Vec::new();
    assert(stack@.map_values(|c: Vec<char>| c@) =~= Seq::<Seq<char>>::empty());
    if !resolve_onto(&mut stack, &parts, false) {
        return None;
    }
    let out = rooted_chars(&stack);
    Some(string_from(out.as_slice()))
}

/// Resolves `relative` against the absolute `root`, lexically.
pub fn resolve_relative_path(root: &str, relative: &str) -> (resolved: Option<String>)
    ensures
        match resolved {
            Some(s) => resolved_relative_path(root@, relative@) == Some(s@),
            None => resolved_relative_path(root@, relative@) is None,
        },
{
    let r = chars_of(root);
    let root_parts = split_chars(r.as_slice(), '/');
    let ghost all_root = split(r@, '/');
    assert(root_parts@.map_values(|c: Vec<char>| c@) =~= all_root);
    let mut stack: Vec<Vec<char>> = Vec::new();
    let mut k: usize = 0;
    while k < root_parts.len()
        invariant
            k <= root_parts@.len(),
            root_parts@.map_values(|c: Vec<char>| c@) == all_root,
            stack@.map_values(|c: Vec<char>| c@) == all_root.take(k as int).filter(
                |c: Seq<char>| c.len() > 0,
            ),
        decreases root_parts@.len() - k,
    {
        let ghost before = stack@.map_values(|c: Vec<char>| c@);
        assert(all_root.take(k + 1).drop_last() =~= all_root.take(k as int));
        reveal_with_fuel(Seq::filter, 1);
        if root_parts[k].len() > 0 {
            let part = root_parts[k].clone();
            stack.push(part);
            assert(stack@.map_values(|c: Vec<char>| c@) =~= before.push(all_root[k as int]));
        }
        k += 1;
    }
    assert(all_root.take(root_parts@.len() as int) =~= all_root);
    let rel = chars_of(relative);
    let rel_parts = split_chars(rel.as_slice(), '/');
    assert(rel_parts@.map_values(|c: Vec<char>| c@) =~= split(rel@, '/'));
    if !resolve_onto(&mut stack, &rel_parts, true) {
        return None;
    }
    let out = rooted_chars(&stack);
    Some(string_from(out.as_slice()))
}

/// An absolute literal or specifier path of the mount-part character set: the forms a generated
/// bind source may take.
pub open spec fn bind_source_target(s: Seq<char>) -> bool {
    (path_form(s) == PathForm::AbsoluteLiteral || path_form(s) == PathForm::SystemdSpecifier)
        && safe_mount_part(s)
}

/// Whether `value` is a form a generated bind source may take.
pub fn is_valid_quadlet_bind_source(value: &str) -> (b: bool)
    ensures
        b == bind_source_target(value@),
{
    let form = classify_path(value);
    (form == PathForm::AbsoluteLiteral || form == PathForm::SystemdSpecifier) && safe_mount_part_chars(
        chars_of(value).as_slice(),
    )
}

// ---------------------------------------------------------------------------------------------
// Normalization is idempotent
// ---------------------------------------------------------------------------------------------

/// Text without a specifier leaves the specifiers of what follows it as they are.
proof fn lemma_specifier_after_plain(x: Seq<char>, z: Seq<char>)
    requires
        !has_specifier(x),
    ensures
        has_specifier(x + z) == has_specifier(z),
    decreases x.len(),
{
    if x.len() > 0 {
        let xz = x + z;
        assert(xz[0] == x[0]);
        if x[0] == '%' {
            assert(x.len() >= 2 && x[1] == '%');
            assert(xz[1] == '%');
            assert(xz.skip(2) =~= x.skip(2) + z);
            lemma_specifier_after_plain(x.skip(2), z);
        } else {
            assert(xz.drop_first() =~= x.drop_first() + z);
            lemma_specifier_after_plain(x.drop_first(), z);
        }
    } else {
        assert(x + z =~= z);
    }
}

/// A specifier stays one when text not starting with `%` follows.
proof fn lemma_specifier_kept(x: Seq<char>, z: Seq<char>)
    requires
        has_specifier(x),
        z.len() == 0 || z[0] != '%',
    ensures
        has_specifier(x + z),
    decreases x.len(),
{
    let xz = x + z;
    assert(xz[0] == x[0]);
    if x[0] == '%' {
        if x.len() >= 2 && x[1] == '%' {
            assert(xz[1] == '%');
            assert(xz.skip(2) =~= x.skip(2) + z);
            lemma_specifier_kept(x.skip(2), z);
        } else if x.len() >= 2 {
            assert(xz[1] == x[1]);
        } else {
            if z.len() > 0 {
                assert(xz[1] == z[0]);
            } else {
                assert(xz =~= x);
            }
        }
    } else {
        assert(xz.drop_first() =~= x.drop_first() + z);
        lemma_specifier_kept(x.drop_first(), z);
    }
}

/// `a/b` has a specifier exactly when `a` or `b` has one.
proof fn lemma_specifier_join2(a: Seq<char>, b: Seq<char>)
    ensures
        has_specifier(a + seq!['/'] + b) == (has_specifier(a) || has_specifier(b)),
{
    let sb = seq!['/'] + b;
    assert(a + seq!['/'] + b =~= a + sb);
    assert(sb[0] == '/');
    assert(sb.drop_first() =~= b);
    if has_specifier(a) {
        lemma_specifier_kept(a, sb);
    } else {
        lemma_specifier_after_plain(a, sb);
    }
}

/// Extending the last part extends the joined text.
proof fn lemma_join_extend_last(parts: Seq<Seq<char>>, c: char, sep: char)
    requires
        parts.len() > 0,
    ensures
        join(parts.update(parts.len() - 1, parts.last().push(c)), sep) == join(parts, sep).push(c),
{
    let q = parts.update(parts.len() - 1, parts.last().push(c));
    if parts.len() > 1 {
        assert(q.drop_last() =~= parts.drop_last());
        assert(q.last() == parts.last().push(c));
        assert(join(q, sep) =~= join(parts, sep).push(c));
    }
}

/// Joining the parts of a split gives the text back.
proof fn lemma_join_split(s: Seq<char>, sep: char)
    ensures
        join(split(s, sep), sep) == s,
    decreases s.len(),
{
    if s.len() > 0 {
        let prev = split(s.drop_last(), sep);
        lemma_join_split(s.drop_last(), sep);
        lemma_split_nonempty(s.drop_last(), sep);
        if s.last() == sep {
            let q = prev.push(Seq::<char>::empty());
            assert(q.drop_last() =~= prev);
            assert(join(q, sep) =~= s.drop_last().push(sep));
        } else {
            lemma_join_extend_last(prev, s.last(), sep);
        }
        assert(s.drop_last().push(s.last()) =~= s);
    }
}

/// Facts of the text that hold of every part: no `/`, no specifier, mount-part characters.
spec fn plain_part(c: Seq<char>) -> bool {
    !has_char(c, '/') && !has_specifier(c) && all_in(c, Charset::MountPart)
}

/// A component kept on a resolution stack.
spec fn kept_component(c: Seq<char>) -> bool {
    plain_part(c) && c.len() > 0 && !(c =~= seq!['.']) && !(c =~= seq!['.', '.'])
}

/// The parts of `/`-joined text hold its facts.
proof fn lemma_parts_plain(parts: Seq<Seq<char>>)
    requires
        parts.len() > 0,
        forall|k: int| 0 <= k < parts.len() ==> !has_char(#[trigger] parts[k], '/'),
        !has_specifier(join(parts, '/')),
        all_in(join(parts, '/'), Charset::MountPart),
    ensures
        forall|k: int| 0 <= k < parts.len() ==> plain_part(#[trigger] parts[k]),
    decreases parts.len(),
{
    if parts.len() > 1 {
        let init = parts.drop_last();
        let a = join(init, '/');
        let b = parts.last();
        assert(join(parts, '/') =~= a + seq!['/'] + b);
        lemma_specifier_join2(a, b);
        assert(all_in(a, Charset::MountPart)) by {
            assert forall|i: int| 0 <= i < a.len() implies in_set(Charset::MountPart, #[trigger] a[i]) by {
                assert((a + seq!['/'] + b)[i] == a[i]);
            }
        }
        assert(all_in(b, Charset::MountPart)) by {
            assert forall|i: int| 0 <= i < b.len() implies in_set(Charset::MountPart, #[trigger] b[i]) by {
                assert((a + seq!['/'] + b)[a.len() + 1 + i] == b[i]);
            }
        }
        assert forall|k: int| 0 <= k < init.len() implies !has_char(#[trigger] init[k], '/') by {
            assert(init[k] == parts[k]);
        }
        lemma_parts_plain(init);
        assert forall|k: int| 0 <= k < parts.len() implies plain_part(#[trigger] parts[k]) by {
            if k < init.len() {
                assert(init[k] == parts[k]);
            } else {
                assert(parts[k] == b);
            }
        }
    }
}

/// The parts of a split hold no separator.
proof fn lemma_split_parts(s: Seq<char>, sep: char)
    ensures
        forall|k: int| 0 <= k < split(s, sep).len() ==> !has_char(#[trigger] split(s, sep)[k], sep),
    decreases s.len(),
{
    if s.len() == 0 {
        assert forall|k: int| 0 <= k < split(s, sep).len() implies !has_char(#[trigger] split(s, sep)[k], sep) by {
            assert(split(s, sep)[k].len() == 0);
        }
    } else {
        let prev = split(s.drop_last(), sep);
        lemma_split_parts(s.drop_last(), sep);
        lemma_split_nonempty(s.drop_last(), sep);
        let t = split(s, sep);
        assert forall|k: int| 0 <= k < t.len() implies !has_char(#[trigger] t[k], sep) by {
            if s.last() == sep {
                if k < prev.len() {
                    assert(t[k] == prev[k]);
                } else {
                    assert(t[k].len() == 0);
                }
            } else {
                if k < prev.len() - 1 {
                    assert(t[k] == prev[k]);
                } else {
                    assert(t[k] == prev.last().push(s.last()));
                    assert(!has_char(prev[prev.len() - 1], sep));
                    if has_char(t[k], sep) {
                        let i = choose|i: int| 0 <= i < t[k].len() && t[k][i] == sep;
                        if i < prev.last().len() {
                            assert(prev.last()[i] == sep);
                        }
                    }
                }
            }
        }
    }
}

/// Resolving plain parts keeps only kept components.
proof fn lemma_resolve_kept(start: Seq<Seq<char>>, components: Seq<Seq<char>>)
    requires
        forall|k: int| 0 <= k < start.len() ==> kept_component(#[trigger] start[k]),
        forall|k: int| 0 <= k < components.len() ==> plain_part(#[trigger] components[k]),
    ensures
        resolve_all(start, components, false) matches Some(stack) ==> forall|k: int|
            0 <= k < stack.len() ==> kept_component(#[trigger] stack[k]),
    decreases components.len(),
{
    if components.len() > 0 {
        let init = components.drop_last();
        assert forall|k: int| 0 <= k < init.len() implies plain_part(#[trigger] init[k]) by {
            assert(init[k] == components[k]);
        }
        lemma_resolve_kept(start, init);
        assert(plain_part(components[components.len() - 1]));
        if let Some(stack) = resolve_all(start, init, false) {
            if let Some(next) = resolve_step(stack, components.last(), false) {
                assert forall|k: int| 0 <= k < next.len() implies kept_component(#[trigger] next[k]) by {
                    if k < stack.len() {
                        assert(next[k] == stack[k]);
                    }
                }
            }
        }
    }
}

/// Resolving an empty part then kept components pushes each component.
proof fn lemma_resolve_rooted(components: Seq<Seq<char>>)
    requires
        forall|k: int| 0 <= k < components.len() ==> kept_component(#[trigger] components[k]),
    ensures
        resolve_all(Seq::empty(), seq![Seq::<char>::empty()] + components, false) == Some(components),
    decreases components.len(),
{
    let all = seq![Seq::<char>::empty()] + components;
    if components.len() == 0 {
        reveal_with_fuel(resolve_all, 2);
        assert(all.drop_last() =~= Seq::<Seq<char>>::empty());
        assert(all.last() =~= Seq::<char>::empty());
        assert(resolve_all(Seq::empty(), all.drop_last(), false) == Some(Seq::<Seq<char>>::empty()));
        assert(components =~= Seq::<Seq<char>>::empty());
    } else {
        let init = components.drop_last();
        assert forall|k: int| 0 <= k < init.len() implies kept_component(#[trigger] init[k]) by {
            assert(init[k] == components[k]);
        }
        lemma_resolve_rooted(init);
        assert(all.drop_last() =~= seq![Seq::<char>::empty()] + init);
        assert(all.last() == components[components.len() - 1]);
        assert(kept_component(components[components.len() - 1]));
        assert(init.push(components.last()) =~= components);
    }
}

/// Joined kept components hold the text facts.
proof fn lemma_join_plain(parts: Seq<Seq<char>>)
    requires
        forall|k: int| 0 <= k < parts.len() ==> kept_component(#[trigger] parts[k]),
    ensures
        !has_specifier(join(parts, '/')),
        all_in(join(parts, '/'), Charset::MountPart),
    decreases parts.len(),
{
    if parts.len() == 1 {
        assert(kept_component(parts[0]));
    } else if parts.len() > 1 {
        let init = parts.drop_last();
        assert forall|k: int| 0 <= k < init.len() implies kept_component(#[trigger] init[k]) by {
            assert(init[k] == parts[k]);
        }
        lemma_join_plain(init);
        let a = join(init, '/');
        let b = parts.last();
        assert(kept_component(parts[parts.len() - 1]));
        assert(join(parts, '/') =~= a + seq!['/'] + b);
        lemma_specifier_join2(a, b);
        let t = a + seq!['/'] + b;
        assert forall|i: int| 0 <= i < t.len() implies in_set(Charset::MountPart, #[trigger] t[i]) by {
            if i < a.len() {
                assert(t[i] == a[i]);
            } else if i == a.len() {
                assert(t[i] == '/');
            } else {
                assert(t[i] == b[i - a.len() - 1]);
            }
        }
    }
}

/// Normalizing a normalized path gives it back: the normal form of an absolute path is itself
/// an absolute path in normal form.
pub proof fn lemma_normalized_path_is_fixed(s: Seq<char>)
    requires
        normalized_absolute_path(s) is Some,
    ensures
        normalized_absolute_path(normalized_absolute_path(s)->Some_0) == normalized_absolute_path(s),
{
    let parts = split(s, '/');
    let stack = resolve_all(Seq::empty(), parts, false)->Some_0;
    let n = rooted(stack);
    lemma_split_parts(s, '/');
    lemma_split_nonempty(s, '/');
    lemma_join_split(s, '/');
    assert(all_in(s, Charset::MountPart));
    lemma_parts_plain(parts);
    lemma_resolve_kept(Seq::empty(), parts);
    lemma_join_plain(stack);
    let body = join(stack, '/');
    // n = "/" + body: no specifier, starts with `/`, mount-part characters.
    assert(n =~= Seq::<char>::empty() + seq!['/'] + body);
    lemma_specifier_join2(Seq::<char>::empty(), body);
    assert(!has_specifier(Seq::<char>::empty()));
    assert(n[0] == '/');
    assert(all_in(n, Charset::MountPart)) by {
        assert forall|i: int| 0 <= i < n.len() implies in_set(Charset::MountPart, #[trigger] n[i]) by {
            if i > 0 {
                assert(n[i] == body[i - 1]);
            }
        }
    }
    assert(safe_mount_part(n));
    assert(path_form(n) == PathForm::AbsoluteLiteral);
    // Its parts are the empty root part, then the stack.
    lemma_split_concat(Seq::<char>::empty(), body, '/');
    assert(split(Seq::<char>::empty(), '/') =~= seq![Seq::<char>::empty()]);
    if stack.len() == 0 {
        assert(body =~= Seq::<char>::empty());
        assert(split(body, '/') =~= seq![Seq::<char>::empty()]);
        assert(split(n, '/') =~= seq![Seq::<char>::empty()] + stack.push(Seq::<char>::empty()));
        assert(split(n, '/') =~= seq![Seq::<char>::empty(), Seq::<char>::empty()]);
        reveal_with_fuel(resolve_all, 3);
        assert(seq![Seq::<char>::empty(), Seq::<char>::empty()].drop_last() =~= seq![Seq::<char>::empty()]);
        assert(seq![Seq::<char>::empty()].drop_last() =~= Seq::<Seq<char>>::empty());
        assert(resolve_all(Seq::empty(), split(n, '/'), false) == Some(stack));
    } else {
        assert forall|k: int| 0 <= k < stack.len() implies !has_char(#[trigger] stack[k], '/') by {
            assert(kept_component(stack[k]));
        }
        lemma_split_join(stack, '/');
        assert(split(n, '/') =~= seq![Seq::<char>::empty()] + stack);
        lemma_resolve_rooted(stack);
    }
}

} // verus!
