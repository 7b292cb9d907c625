//! The grammar of host paths: a path is split on `/` into segments, and the
//! segments that carry a name become its components.

use vstd::prelude::*;
use crate::text::{chars_of, string_of};

verus! {

/// The pieces of `s` between separators. There is always at least one piece;
/// a piece is empty where two separators meet or where `s` begins or ends
/// with one.
pub open spec fn segments(s: Seq<char>) -> Seq<Seq<char>>
    decreases s.len(),
{
    if s.len() == 0 {
        seq![Seq::<char>::empty()]
    } else {
        let before = segments(s.drop_last());
        if s.last() == '/' {
            before.push(Seq::<char>::empty())
        } else {
            before.drop_last().push(before.last().push(s.last()))
        }
    }
}

/// `parts` written one after the other with a `/` between neighbours.
pub open spec fn joined(parts: Seq<Seq<char>>) -> Seq<char>
    decreases parts.len(),
{
    if parts.len() == 0 {
        Seq::<char>::empty()
    } else if parts.len() == 1 {
        parts[0]
    } else {
        joined(parts.drop_last()) + seq!['/'] + parts.last()
    }
}

/// The segments of a path are what stands between its separators: none of
/// them holds a separator, and joined by separators they give the path again.
pub proof fn lemma_segments_rebuild(s: Seq<char>)
    ensures
        segments(s).len() >= 1,
        joined(segments(s)) == s,
        forall|i: int| 0 <= i < segments(s).len() ==> !(#[trigger] segments(s)[i]).contains('/'),
    decreases s.len(),
{
    if s.len() == 0 {
        assert(joined(segments(s)) =~= s);
    } else {
        let shorter = s.drop_last();
        let before = segments(shorter);
        lemma_segments_rebuild(shorter);
        if s.last() == '/' {
            let now = before.push(Seq::<char>::empty());
            assert(now.drop_last() =~= before);
            assert(joined(now) =~= shorter.push('/'));
            assert(shorter.push('/') =~= s);
            assert forall|i: int| 0 <= i < now.len() implies !(#[trigger] now[i]).contains(
                '/',
            ) by {
                if i < before.len() {
                    assert(now[i] == before[i]);
                }
            }
        } else {
            let grown = before.last().push(s.last());
            let now = before.drop_last().push(grown);
            assert(now.drop_last() =~= before.drop_last());
            assert(joined(now) =~= joined(before).push(s.last()));
            assert(shorter.push(s.last()) =~= s);
            assert forall|i: int| 0 <= i < now.len() implies !(#[trigger] now[i]).contains(
                '/',
            ) by {
                if i < before.len() - 1 {
                    assert(now[i] == before[i]);
                } else {
                    assert(!before[i].contains('/'));
                    if grown.contains('/') {
                        let k = choose|k: int| 0 <= k < grown.len() && grown[k] == '/';
                        assert(before[i][k] == '/');
                    }
                }
            }
        }
    }
}

/// Whether the segment at position `index` names a component: empty segments
/// never do, and `.` does only at the very start of a path.
pub open spec fn names_component(segment: Seq<char>, index: int) -> bool {
    segment.len() > 0 && (index == 0 || segment != seq!['.'])
}

/// The segments that name a component, in order.
pub open spec fn named(segs: Seq<Seq<char>>) -> Seq<Seq<char>>
    decreases segs.len(),
{
    if segs.len() == 0 {
        Seq::<Seq<char>>::empty()
    } else if names_component(segs.last(), segs.len() - 1) {
        named(segs.drop_last()).push(segs.last())
    } else {
        named(segs.drop_last())
    }
}

/// Whether `path` starts at the root of the file system.
pub open spec fn is_rooted(path: Seq<char>) -> bool {
    path.len() > 0 && path[0] == '/'
}

/// The components of `path`: the root, written `/`, if the path starts there,
/// then every segment that names something.
pub open spec fn components_of(path: Seq<char>) -> Seq<Seq<char>> {
    if is_rooted(path) {
        seq![seq!['/']] + named(segments(path))
    } else {
        named(segments(path))
    }
}

/// The character sequences held by a list of strings.
pub open spec fn texts(strings: Seq<String>) -> Seq<Seq<char>> {
    Seq::new(strings.len(), |i: int| strings[i]@)
}

/// Splits `path` into its components.
pub fn components(path: &str) -> (parts: Vec<String>)
    ensures
        texts(parts@) == components_of(path@),
{
    let chars = chars_of(path);
    let mut parts: Vec<String> = Vec::new();
    if chars.len() > 0 && chars[0] == '/' {
        let mut root = String::new();
        root.push('/');
        parts.push(root);
        assert(texts(parts@) =~= seq![seq!['/']]);
    }
    let ghost lead = texts(parts@);
    let ghost mut done: Seq<Seq<char>> = Seq::empty();
    let mut current: Vec<char> = Vec::new();
    let mut index: usize = 0;
    let mut i: usize = 0;
    assert(chars@.take(0) =~= Seq::<char>::empty());
    while i < chars.len()
        invariant
            i <= chars.len(),
            index <= i,
            index == done.len(),
            segments(chars@.take(i as int)) == done.push(current@),
            texts(parts@) == lead + named(done),
        decreases chars.len() - i,
    {
        let c = chars[i];
        proof {
            let before = chars@.take(i as int);
            let now = chars@.take(i + 1);
            assert(now.drop_last() =~= before);
            assert(now.last() == c);
        }
        if c == '/' {
            let keep = current.len() > 0 && (index == 0 || !(current.len() == 1 && current[0] == '.'));
            proof {
                assert(keep == names_component(current@, index as int)) by {
                    if current@.len() == 1 && current@[0] == '.' {
                        assert(current@ =~= seq!['.']);
                    }
                }
                assert(done.push(current@).drop_last() =~= done);
            }
            if keep {
                let ghost held = texts(parts@);
                let text = string_of(&current);
                parts.push(text);
                assert(texts(parts@) =~= held.push(current@));
                assert(named(done.push(current@)) == named(done).push(current@));
                assert(texts(parts@) =~= lead + named(done.push(current@)));
            }
            proof {
                done = done.push(current@);
            }
            current = Vec::new();
            index += 1;
        } else {
            proof {
                assert(done.push(current@).drop_last() =~= done);
            }
            current.push(c);
        }
        i += 1;
    }
    assert(chars@.take(i as int) =~= chars@);
    let keep = current.len() > 0 && (index == 0 || !(current.len() == 1 && current[0] == '.'));
    proof {
        assert(keep == names_component(current@, index as int)) by {
            if current@.len() == 1 && current@[0] == '.' {
                assert(current@ =~= seq!['.']);
            }
        }
        assert(done.push(current@).drop_last() =~= done);
    }
    if keep {
        let ghost held = texts(parts@);
        let text = string_of(&current);
        parts.push(text);
        assert(texts(parts@) =~= held.push(current@));
        assert(named(done.push(current@)) == named(done).push(current@));
        assert(texts(parts@) =~= lead + named(done.push(current@)));
    }
    parts
}

/// Whether a component names a file or a directory, that is, whether it is
/// neither the root nor one of the two relative markers `.` and `..`.
pub open spec fn is_normal(component: Seq<char>) -> bool {
    component != seq!['/'] && component != seq!['.'] && component != seq!['.', '.']
}

/// The last of `parts`, if there is one and it is a normal component.
pub open spec fn last_normal(parts: Seq<Seq<char>>) -> Option<Seq<char>> {
    if parts.len() > 0 && is_normal(parts.last()) {
        Some(parts.last())
    } else {
        None
    }
}

/// The name that `path` ends in: its last component, if that is a normal one.
pub open spec fn file_name_of(path: Seq<char>) -> Option<Seq<char>> {
    last_normal(components_of(path))
}

fn is_normal_name(name: &Vec<char>) -> (normal: bool)
    ensures
        normal == is_normal(name@),
{
    let n = name.len();
    let root = n == 1 && name[0] == '/';
    let here = n == 1 && name[0] == '.';
    let up = n == 2 && name[0] == '.' && name[1] == '.';
    proof {
        if root {
            assert(name@ =~= seq!['/']);
        }
        if here {
            assert(name@ =~= seq!['.']);
        }
        if up {
            assert(name@ =~= seq!['.', '.']);
        }
    }
    !root && !here && !up
}

/// The last of `parts`, if there is one and it is a normal component.
pub fn last_normal_part(parts: &Vec<String>) -> (name: Option<String>)
    ensures
        name is Some == last_normal(texts(parts@)) is Some,
        name is Some ==> name->0@ == last_normal(texts(parts@))->0,
{
    if parts.len() == 0 {
        return None;
    }
    let last = &parts[parts.len() - 1];
    assert(texts(parts@).last() == last@);
    let chars = chars_of(last.as_str());
    if is_normal_name(&chars) {
        Some(last.clone())
    } else {
        None
    }
}

/// The name that `path` ends in, if it ends in one.
pub fn file_name(path: &str) -> (name: Option<String>)
    ensures
        name is Some == file_name_of(path@) is Some,
        name is Some ==> name->0@ == file_name_of(path@)->0,
{
    let parts = components(path);
    last_normal_part(&parts)
}

/// The position of the last `.` in `name`, or `-1` where it holds none.
pub open spec fn last_dot(name: Seq<char>) -> int
    decreases name.len(),
{
    if name.len() == 0 {
        -1
    } else if name.last() == '.' {
        name.len() - 1
    } else {
        last_dot(name.drop_last())
    }
}

/// The extension of the file that `path` names: what follows the last `.` of
/// its file name, provided that something stands before that `.`.
pub open spec fn extension_of(path: Seq<char>) -> Option<Seq<char>> {
    match file_name_of(path) {
        Some(name) => {
            let dot = last_dot(name);
            if dot > 0 {
                Some(name.skip(dot + 1))
            } else {
                None
            }
        },
        None => None,
    }
}

/// The extension of the file that `path` names, if it has one.
pub fn extension(path: &str) -> (ext: Option<String>)
    ensures
        ext is Some == extension_of(path@) is Some,
        ext is Some ==> ext->0@ == extension_of(path@)->0,
{
    let name = match file_name(path) {
        Some(name) => name,
        None => {
            return None;
        },
    };
    let chars = chars_of(name.as_str());
    let mut end: usize = chars.len();
    assert(chars@.take(end as int) =~= chars@);
    while end > 0 && chars[end - 1] != '.'
        invariant
            end <= chars.len(),
            last_dot(chars@) == last_dot(chars@.take(end as int)),
        decreases end,
    {
        proof {
            assert(chars@.take(end as int).drop_last() =~= chars@.take(end - 1));
        }
        end -= 1;
    }
    if end <= 1 {
        return None;
    }
    let mut tail: Vec<char> = Vec::new();
    let mut i: usize = end;
    while i < chars.len()
        invariant
            end <= i <= chars.len(),
            tail@ == chars@.subrange(end as int, i as int),
        decreases chars.len() - i,
    {
        tail.push(chars[i]);
        i += 1;
    }
    assert(tail@ =~= chars@.skip(end as int));
    Some(string_of(&tail))
}

/// The components of `path` below `root`: those of `path` without the
/// components of `root` where `path` begins with them, and all of them where
/// it does not.
pub open spec fn relative_components_of(root: Seq<char>, path: Seq<char>) -> Seq<Seq<char>> {
    let base = components_of(root);
    let full = components_of(path);
    if base.is_prefix_of(full) {
        full.skip(base.len() as int)
    } else {
        full
    }
}

/// The components of `path` below `root`.
pub fn relative_components(root: &str, path: &str) -> (parts: Vec<String>)
    ensures
        texts(parts@) == relative_components_of(root@, path@),
{
    let base = components(root);
    let full = components(path);
    let mut shared: usize = 0;
    while shared < base.len() && shared < full.len() && base[shared] == full[shared]
        invariant
            shared <= base.len(),
            shared <= full.len(),
            forall|k: int| 0 <= k < shared ==> texts(base@)[k] == texts(full@)[k],
        decreases base.len() - shared,
    {
        shared += 1;
    }
    if shared < base.len() {
        proof {
            if texts(base@).is_prefix_of(texts(full@)) {
                assert(texts(base@)[shared as int] == texts(full@)[shared as int]);
            }
        }
        return full;
    }
    assert(texts(base@) =~= texts(full@).subrange(0, base.len() as int));
    let mut parts: Vec<String> = Vec::new();
    let mut i: usize = shared;
    while i < full.len()
        invariant
            shared <= i <= full.len(),
            texts(parts@) == texts(full@).subrange(shared as int, i as int),
        decreases full.len() - i,
    {
        let ghost held = texts(parts@);
        let part = full[i].clone();
        parts.push(part);
        assert(texts(parts@) =~= held.push(full@[i as int]@));
        assert(texts(parts@) =~= texts(full@).subrange(shared as int, i + 1));
        i += 1;
    }
    assert(texts(parts@) =~= texts(full@).skip(shared as int));
    parts
}

/// Whether `name` can be the name of a file or directory: it is not empty,
/// holds no separator, and is neither `.` nor `..`.
pub open spec fn is_plain_name(name: Seq<char>) -> bool {
    &&& name.len() > 0
    &&& !name.contains('/')
    &&& name != seq!['.']
    &&& name != seq!['.', '.']
}

/// A path always has at least one segment.
pub proof fn lemma_segments_nonempty(s: Seq<char>)
    ensures
        segments(s).len() >= 1,
    decreases s.len(),
{
    if s.len() > 0 {
        lemma_segments_nonempty(s.drop_last());
    }
}

/// A separator and a run of characters without one add exactly one segment.
pub proof fn lemma_segments_append(s: Seq<char>, name: Seq<char>)
    requires
        !name.contains('/'),
    ensures
        segments(s + seq!['/'] + name) == segments(s).push(name),
    decreases name.len(),
{
    let whole = s + seq!['/'] + name;
    if name.len() == 0 {
        assert(whole.drop_last() =~= s);
        assert(name =~= Seq::<char>::empty());
    } else {
        let shorter = name.drop_last();
        assert(name.last() != '/') by {
            assert(name.contains(name[name.len() - 1]));
        }
        assert(!shorter.contains('/')) by {
            if shorter.contains('/') {
                let k = choose|k: int| 0 <= k < shorter.len() && shorter[k] == '/';
                assert(name[k] == '/');
            }
        }
        lemma_segments_append(s, shorter);
        assert(whole.drop_last() =~= s + seq!['/'] + shorter);
        assert(segments(s).push(shorter).drop_last() =~= segments(s));
        assert(shorter.push(name.last()) =~= name);
    }
}

/// Appending a separator and a plain name to a path that is not empty adds
/// that name as its last component.
pub proof fn lemma_components_append(path: Seq<char>, name: Seq<char>)
    requires
        path.len() > 0,
        is_plain_name(name),
    ensures
        components_of(path + seq!['/'] + name) == components_of(path).push(name),
{
    let whole = path + seq!['/'] + name;
    lemma_segments_append(path, name);
    lemma_segments_nonempty(path);
    let segs = segments(path);
    assert(segs.push(name).drop_last() =~= segs);
    assert(named(segs.push(name)) == named(segs).push(name));
    assert(whole[0] == path[0]);
    assert(components_of(whole) =~= components_of(path).push(name));
}

/// A path that ends in a separator and a plain name has that name as its file
/// name.
pub proof fn lemma_file_name_append(path: Seq<char>, name: Seq<char>)
    requires
        path.len() > 0,
        is_plain_name(name),
    ensures
        file_name_of(path + seq!['/'] + name) == Some(name),
{
    lemma_components_append(path, name);
    assert(name != seq!['/']) by {
        if name == seq!['/'] {
            assert(name[0] == '/');
            assert(name.contains('/'));
        }
    }
}

/// Whether the character `c` occurs in none of `parts`.
pub open spec fn all_avoid(parts: Seq<Seq<char>>, c: char) -> bool {
    forall|i: int| 0 <= i < parts.len() ==> !(#[trigger] parts[i]).contains(c)
}

/// A character that does not occur in a path occurs in none of its segments.
pub proof fn lemma_segments_avoid(s: Seq<char>, c: char)
    requires
        !s.contains(c),
    ensures
        all_avoid(segments(s), c),
    decreases s.len(),
{
    if s.len() > 0 {
        let shorter = s.drop_last();
        assert(!shorter.contains(c)) by {
            if shorter.contains(c) {
                let k = choose|k: int| 0 <= k < shorter.len() && shorter[k] == c;
                assert(s[k] == c);
            }
        }
        assert(s.last() != c) by {
            assert(s[s.len() - 1] == s.last());
        }
        lemma_segments_avoid(shorter, c);
        lemma_segments_nonempty(shorter);
        let before = segments(shorter);
        let now = segments(s);
        assert forall|i: int| 0 <= i < now.len() implies !(#[trigger] now[i]).contains(c) by {
            if i < before.len() - 1 {
                assert(now[i] == before[i]);
            } else if s.last() == '/' {
                if i == before.len() - 1 {
                    assert(now[i] == before[i]);
                }
            } else {
                if now[i].contains(c) {
                    let k = choose|k: int| 0 <= k < now[i].len() && now[i][k] == c;
                    assert(before[i][k] == c);
                }
            }
        }
    }
}

/// A character that occurs in none of the segments occurs in none of those
/// that name a component.
pub proof fn lemma_named_avoid(segs: Seq<Seq<char>>, c: char)
    requires
        all_avoid(segs, c),
    ensures
        all_avoid(named(segs), c),
    decreases segs.len(),
{
    if segs.len() > 0 {
        let shorter = segs.drop_last();
        assert(all_avoid(shorter, c)) by {
            assert forall|i: int| 0 <= i < shorter.len() implies !(#[trigger] shorter[i]).contains(
                c,
            ) by {
                assert(shorter[i] == segs[i]);
            }
        }
        lemma_named_avoid(shorter, c);
        assert(!segs.last().contains(c)) by {
            assert(segs[segs.len() - 1] == segs.last());
        }
    }
}

/// A character other than `/` that does not occur in a path occurs in none of
/// its components.
pub proof fn lemma_components_avoid(path: Seq<char>, c: char)
    requires
        !path.contains(c),
        c != '/',
    ensures
        all_avoid(components_of(path), c),
{
    lemma_segments_avoid(path, c);
    lemma_named_avoid(segments(path), c);
    let kept = named(segments(path));
    let parts = components_of(path);
    assert forall|i: int| 0 <= i < parts.len() implies !(#[trigger] parts[i]).contains(c) by {
        if is_rooted(path) {
            if i == 0 {
                if parts[0].contains(c) {
                    let k = choose|k: int| 0 <= k < parts[0].len() && parts[0][k] == c;
                }
            } else {
                assert(parts[i] == kept[i - 1]);
            }
        }
    }
}

/// A character other than `/` that occurs in none of the parts does not occur
/// in what they are joined to.
pub proof fn lemma_joined_avoid(parts: Seq<Seq<char>>, c: char)
    requires
        all_avoid(parts, c),
        c != '/',
    ensures
        !joined(parts).contains(c),
    decreases parts.len(),
{
    if parts.len() == 1 {
        assert(!parts[0].contains(c));
    } else if parts.len() > 1 {
        let shorter = parts.drop_last();
        assert(all_avoid(shorter, c)) by {
            assert forall|i: int| 0 <= i < shorter.len() implies !(#[trigger] shorter[i]).contains(
                c,
            ) by {
                assert(shorter[i] == parts[i]);
            }
        }
        lemma_joined_avoid(shorter, c);
        assert(!parts.last().contains(c)) by {
            assert(parts[parts.len() - 1] == parts.last());
        }
        let whole = joined(parts);
        if whole.contains(c) {
            let k = choose|k: int| 0 <= k < whole.len() && whole[k] == c;
            let head = joined(shorter);
            if k < head.len() {
                assert(head[k] == c);
            } else if k > head.len() {
                assert(parts.last()[k - head.len() - 1] == c);
            }
        }
    }
}

/// In a name made of a stem, a dot and an extension without a dot, the last
/// dot is the one behind the stem.
pub proof fn lemma_last_dot_append(stem: Seq<char>, ext: Seq<char>)
    requires
        !ext.contains('.'),
    ensures
        last_dot(stem + seq!['.'] + ext) == stem.len(),
    decreases ext.len(),
{
    let name = stem + seq!['.'] + ext;
    if ext.len() == 0 {
        assert(name.last() == '.');
    } else {
        let shorter = ext.drop_last();
        assert(ext.last() != '.') by {
            assert(ext.contains(ext[ext.len() - 1]));
        }
        assert(!shorter.contains('.')) by {
            if shorter.contains('.') {
                let k = choose|k: int| 0 <= k < shorter.len() && shorter[k] == '.';
                assert(ext[k] == '.');
            }
        }
        lemma_last_dot_append(stem, shorter);
        assert(name.drop_last() =~= stem + seq!['.'] + shorter);
        assert(name.last() == ext.last());
    }
}

/// A path that ends in a separator and a name made of a stem, a dot and an
/// extension without a dot has that extension.
pub proof fn lemma_extension_append(path: Seq<char>, stem: Seq<char>, ext: Seq<char>)
    requires
        path.len() > 0,
        stem.len() > 0,
        !ext.contains('.'),
        is_plain_name(stem + seq!['.'] + ext),
    ensures
        extension_of(path + seq!['/'] + (stem + seq!['.'] + ext)) == Some(ext),
{
    let name = stem + seq!['.'] + ext;
    lemma_file_name_append(path, name);
    lemma_last_dot_append(stem, ext);
    assert(name.skip(stem.len() as int + 1) =~= ext);
}

/// The components of an absolute path written with plain names and single
/// separators are the root and those names.
pub proof fn lemma_components_of_names(names: Seq<Seq<char>>)
    requires
        names.len() > 0,
        forall|i: int| 0 <= i < names.len() ==> is_plain_name(#[trigger] names[i]),
    ensures
        components_of(seq!['/'] + joined(names)) == seq![seq!['/']] + names,
    decreases names.len(),
{
    let path = seq!['/'] + joined(names);
    let last = names.last();
    assert(is_plain_name(names[names.len() - 1]));
    if names.len() == 1 {
        let nothing = Seq::<char>::empty();
        lemma_segments_append(nothing, last);
        assert(nothing + seq!['/'] + last =~= path);
        let segs = segments(nothing).push(last);
        assert(segs.drop_last() =~= segments(nothing));
        assert(segments(nothing) =~= seq![nothing]);
        assert(named(segments(nothing)) =~= Seq::<Seq<char>>::empty()) by {
            let one = seq![nothing];
            assert(one.len() == 1);
            assert(one.last().len() == 0);
            assert(one.drop_last().len() == 0);
            assert(named(one.drop_last()).len() == 0);
        }
        assert(named(segs) =~= seq![last]);
        assert(path[0] == '/');
        assert(components_of(path) =~= seq![seq!['/']] + names);
    } else {
        let shorter = names.drop_last();
        assert forall|i: int| 0 <= i < shorter.len() implies is_plain_name(
            #[trigger] shorter[i],
        ) by {
            assert(shorter[i] == names[i]);
        }
        lemma_components_of_names(shorter);
        let before = seq!['/'] + joined(shorter);
        lemma_components_append(before, last);
        assert(before + seq!['/'] + last =~= path);
        assert((seq![seq!['/']] + shorter).push(last) =~= seq![seq!['/']] + names);
    }
}

} // verus!
