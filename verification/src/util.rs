//! Reading YAML text, and paths as texts.

use crate::error::FlError;
use crate::error::FlErrorView;
use crate::text::chars_of;
use crate::text::join;
use crate::text::views;
use crate::yaml::scan_documents;
use crate::yaml::yaml_documents;
use crate::yaml::YamlNode;
use crate::yaml::YamlView;
use vstd::prelude::*;

verus! {

/// The texts among `items` that are not empty, in order.
pub open spec fn nonempty_texts(items: Seq<YamlView>) -> Seq<Seq<char>>
    decreases items.len(),
{
    if items.len() == 0 {
        Seq::empty()
    } else {
        let rest = nonempty_texts(items.drop_last());
        match items.last() {
            YamlView::Text(text) => if text.len() > 0 {
                rest.push(text)
            } else {
                rest
            },
            _ => rest,
        }
    }
}

/// The list of texts that `node` holds: the non-empty text items of a
/// sequence, and nothing for any other node.
pub open spec fn str_list(node: YamlView) -> Seq<Seq<char>> {
    nonempty_texts(node.items())
}

/// What `load_yaml` makes of the content of a file: the first document, or
/// the error.
pub open spec fn first_document(config_file: Seq<char>, content: Seq<char>) -> Result<
    YamlView,
    Option<FlErrorView>,
> {
    match yaml_documents(content) {
        None => Err(None),
        Some(docs) => if docs.len() == 0 {
            Err(Some(FlErrorView::EmptyFile(config_file)))
        } else {
            Ok(docs[0])
        },
    }
}

/// The first YAML document of `content`, the content of the file
/// `config_file`.
///
/// Content that is not well-formed YAML gives `YamlReadError` with the
/// scanner's error, content without a document gives `EmptyFile`.
pub fn load_yaml(config_file: &str, content: &str) -> (r: Result<YamlNode, FlError>)
    ensures
        match first_document(config_file@, content@) {
            Ok(doc) => r is Ok && r->Ok_0@ == doc,
            Err(Some(error)) => r is Err && r->Err_0@ == error,
            Err(None) => r is Err && r->Err_0 is YamlReadError,
        },
{
    match scan_documents(content) {
        Err(error) => Err(FlError::YamlReadError(error)),
        Ok(mut docs) => {
            if docs.len() == 0 {
                Err(FlError::EmptyFile(config_file.to_owned()))
            } else {
                assert(views(docs@)[0] == docs@[0]@);
                Ok(docs.remove(0))
            }
        },
    }
}

/// The list of texts that `yaml` holds: the non-empty text items of a
/// sequence, and nothing for any other node.
pub fn yaml_str_list(yaml: &YamlNode) -> (list: Vec<String>)
    ensures
        views(list@) == str_list(yaml@),
{
    let mut list: Vec<String> = Vec::new();
    let items = match yaml.as_vec() {
        Some(items) => items,
        None => {
            assert(views(list@) =~= str_list(yaml@));
            return list;
        },
    };
    let ghost all = views(items@);
    assert(all.take(0) =~= Seq::<YamlView>::empty());
    let mut i: usize = 0;
    while i < items.len()
        invariant
            i <= items.len(),
            all == views(items@),
            views(list@) =~= nonempty_texts(all.take(i as int)),
        decreases items.len() - i,
    {
        proof {
            assert(all.take(i + 1).drop_last() =~= all.take(i as int));
            assert(all.take(i + 1).last() == items@[i as int]@);
        }
        match items[i].as_str() {
            Some(text) => {
                if !text.is_empty() {
                    let ghost before = views(list@);
                    list.push(text.to_owned());
                    assert(views(list@) =~= before.push(text@));
                }
            },
            None => {},
        }
        i += 1;
    }
    assert(all.take(items@.len() as int) =~= all);
    list
}

/// The separator of the components of a path.
pub open spec fn slash() -> Seq<char> {
    seq!['/']
}

/// The segment that stands for the directory itself.
pub open spec fn dot() -> Seq<char> {
    seq!['.']
}

/// The segment that stands for the parent directory.
pub open spec fn dotdot() -> Seq<char> {
    seq!['.', '.']
}

/// What stands between the slashes of `path`, from left to right; before a
/// leading slash, between two slashes in a row and behind a trailing slash
/// stands an empty segment.
pub open spec fn segments(path: Seq<char>) -> Seq<Seq<char>>
    decreases path.len(),
{
    if path.len() == 0 {
        seq![Seq::empty()]
    } else {
        let before = segments(path.drop_last());
        if path.last() == '/' {
            before.push(Seq::empty())
        } else {
            before.drop_last().push(before.last().push(path.last()))
        }
    }
}

/// Whether a segment is a component of a path: neither empty nor `.`.
pub open spec fn is_component(segment: Seq<char>) -> bool {
    segment.len() > 0 && segment != dot()
}

/// The components that are left after one more segment: `..` takes the last
/// one away, where there is one; any other component is added.
pub open spec fn resolve_step(parts: Seq<Seq<char>>, segment: Seq<char>) -> Seq<Seq<char>> {
    if !is_component(segment) {
        parts
    } else if segment == dotdot() {
        if parts.len() > 0 {
            parts.drop_last()
        } else {
            parts
        }
    } else {
        parts.push(segment)
    }
}

/// The components that are left of `segs`, taken from left to right.
pub open spec fn resolved(segs: Seq<Seq<char>>) -> Seq<Seq<char>>
    decreases segs.len(),
{
    if segs.len() == 0 {
        Seq::empty()
    } else {
        resolve_step(resolved(segs.drop_last()), segs.last())
    }
}

/// The normal form of `path`: its components with every `.` left out and
/// every `..` resolved against the component before it, joined by slashes,
/// behind a slash where `path` starts with one. A `..` with no component
/// before it is left out.
pub open spec fn normalized(path: Seq<char>) -> Seq<char> {
    let parts = join(resolved(segments(path)), slash());
    if path.len() > 0 && path[0] == '/' {
        slash() + parts
    } else {
        parts
    }
}

/// The place of the last component among `segs`.
pub open spec fn last_component(segs: Seq<Seq<char>>) -> Option<int>
    decreases segs.len(),
{
    if segs.len() == 0 {
        None
    } else if is_component(segs.last()) {
        Some(segs.len() - 1)
    } else {
        last_component(segs.drop_last())
    }
}

/// The last component of `path`, unless there is none or it is `..`.
pub open spec fn file_name_of(path: Seq<char>) -> Option<Seq<char>> {
    let segs = segments(path);
    match last_component(segs) {
        None => None,
        Some(at) => if segs[at] == dotdot() {
            None
        } else {
            Some(segs[at])
        },
    }
}

/// The name and the path of the directory that holds the file at `path`: the
/// component before the last one, and `path` up to the end of that component.
/// There is none where `path` has fewer than two components or the one before
/// the last is `..`.
pub open spec fn parent_dir_of(path: Seq<char>) -> Option<(Seq<char>, Seq<char>)> {
    let segs = segments(path);
    match last_component(segs) {
        None => None,
        Some(last) => match last_component(segs.take(last)) {
            None => None,
            Some(at) => if segs[at] == dotdot() {
                None
            } else {
                Some((segs[at], join(segs.take(at + 1), slash())))
            },
        },
    }
}

/// What stands between the slashes of `chars`.
pub fn split_segments(chars: &Vec<char>) -> (segs: Vec<Vec<char>>)
    ensures
        views(segs@) == segments(chars@),
        segs@.len() > 0,
{
    let mut segs: Vec<Vec<char>> = Vec::new();
    let mut current: Vec<char> = Vec::new();
    let mut i: usize = 0;
    assert(chars@.take(0) =~= Seq::<char>::empty());
    assert(views(segs@).push(current@) =~= segments(chars@.take(0)));
    while i < chars.len()
        invariant
            i <= chars.len(),
            views(segs@).push(current@) == segments(chars@.take(i as int)),
        decreases chars.len() - i,
    {
        let ghost before = views(segs@).push(current@);
        let ghost done = views(segs@);
        proof {
            assert(chars@.take(i + 1).drop_last() =~= chars@.take(i as int));
            assert(chars@.take(i + 1).last() == chars@[i as int]);
        }
        if chars[i] == '/' {
            segs.push(current);
            current = Vec::new();
            assert(views(segs@).push(current@) =~= before.push(Seq::empty()));
        } else {
            let ghost was = current@;
            current.push(chars[i]);
            assert(before.drop_last() =~= done);
            assert(views(segs@).push(current@) =~= before.drop_last().push(
                before.last().push(chars@[i as int]),
            ));
        }
        i += 1;
    }
    assert(chars@.take(chars@.len() as int) =~= chars@);
    let ghost done = views(segs@);
    segs.push(current);
    assert(views(segs@) =~= done.push(current@));
    segs
}

/// Whether `segment` is a component of a path: neither empty nor `.`.
pub fn component(segment: &Vec<char>) -> (b: bool)
    ensures
        b == is_component(segment@),
{
    if segment.len() == 0 {
        false
    } else if segment.len() == 1 && segment[0] == '.' {
        assert(segment@ =~= dot());
        false
    } else {
        if segment.len() == 1 {
            assert(segment@[0] != dot()[0]);
        }
        true
    }
}

/// Whether `segment` is `..`.
pub fn parent_segment(segment: &Vec<char>) -> (b: bool)
    ensures
        b == (segment@ == dotdot()),
{
    if segment.len() == 2 && segment[0] == '.' && segment[1] == '.' {
        assert(segment@ =~= dotdot());
        true
    } else {
        if segment.len() == 2 {
            assert(segment@[0] != dotdot()[0] || segment@[1] != dotdot()[1]);
        }
        false
    }
}

/// A copy of `chars`.
pub fn copy_chars(chars: &Vec<char>) -> (copy: Vec<char>)
    ensures
        copy@ == chars@,
{
    let mut copy: Vec<char> = Vec::new();
    let mut i: usize = 0;
    while i < chars.len()
        invariant
            i <= chars.len(),
            copy@ == chars@.take(i as int),
        decreases chars.len() - i,
    {
        copy.push(chars[i]);
        assert(chars@.take(i + 1) =~= chars@.take(i as int).push(chars@[i as int]));
        i += 1;
    }
    assert(chars@.take(chars@.len() as int) =~= chars@);
    copy
}

/// Appends the first `count` of `parts`, joined by slashes, to `text`.
pub fn push_joined(text: &mut String, parts: &Vec<Vec<char>>, count: usize)
    requires
        count <= parts@.len(),
    ensures
        final(text)@ == old(text)@ + join(views(parts@).take(count as int), slash()),
{
    let ghost start = text@;
    let mut i: usize = 0;
    assert(start + join(views(parts@).take(0), slash()) =~= start);
    while i < count
        invariant
            i <= count <= parts@.len(),
            text@ == start + join(views(parts@).take(i as int), slash()),
        decreases count - i,
    {
        let ghost before = text@;
        let ghost joined = join(views(parts@).take(i as int), slash());
        if i > 0 {
            text.push('/');
        }
        let part = &parts[i];
        let mut k: usize = 0;
        let ghost head = text@;
        while k < part.len()
            invariant
                k <= part.len(),
                text@ == head + part@.take(k as int),
            decreases part.len() - k,
        {
            text.push(part[k]);
            assert(part@.take(k + 1) =~= part@.take(k as int).push(part@[k as int]));
            assert(head + part@.take(k + 1) =~= (head + part@.take(k as int)).push(part@[k as int]));
            k += 1;
        }
        proof {
            assert(part@.take(part@.len() as int) =~= part@);
            let done = views(parts@).take(i + 1);
            assert(done.drop_last() =~= views(parts@).take(i as int));
            assert(done.last() == part@);
            if i == 0 {
                assert(joined =~= Seq::<char>::empty());
                assert(text@ =~= start + part@);
            } else {
                assert(before.push('/') =~= before + slash());
                assert(text@ =~= start + (joined + slash() + part@));
            }
        }
        i += 1;
    }
}

/// The normal form of `path`, worked out on the text alone: no `.` is left in
/// it, a `..` has taken the component before it away, and the components are
/// joined by single slashes.
pub fn normalize_path(path: &str) -> (normal: String)
    ensures
        normal@ == normalized(path@),
{
    let chars = chars_of(path);
    let segs = split_segments(&chars);
    let ghost all = views(segs@);
    let mut parts: Vec<Vec<char>> = Vec::new();
    let mut i: usize = 0;
    assert(all.take(0) =~= Seq::<Seq<char>>::empty());
    assert(views(parts@) =~= resolved(all.take(0)));
    while i < segs.len()
        invariant
            i <= segs.len(),
            all == views(segs@),
            views(parts@) == resolved(all.take(i as int)),
        decreases segs.len() - i,
    {
        let ghost before = views(parts@);
        proof {
            assert(all.take(i + 1).drop_last() =~= all.take(i as int));
            assert(all.take(i + 1).last() == segs@[i as int]@);
        }
        if component(&segs[i]) {
            if parent_segment(&segs[i]) {
                if parts.len() > 0 {
                    parts.pop();
                    assert(views(parts@) =~= before.drop_last());
                }
            } else {
                parts.push(copy_chars(&segs[i]));
                assert(views(parts@) =~= before.push(segs@[i as int]@));
            }
        }
        i += 1;
    }
    assert(all.take(segs@.len() as int) =~= all);
    let mut normal = String::new();
    if chars.len() > 0 && chars[0] == '/' {
        normal.push('/');
        assert(normal@ =~= slash());
    }
    let count = parts.len();
    push_joined(&mut normal, &parts, count);
    assert(views(parts@).take(count as int) =~= views(parts@));
    assert(Seq::<char>::empty() + join(views(parts@), slash()) =~= join(views(parts@), slash()));
    normal
}

/// The normal form of `path_str`.
pub fn normalize_path_str(path_str: String) -> (normal: String)
    ensures
        normal@ == normalized(path_str@),
{
    normalize_path(path_str.as_str())
}

/// The place of the last component among the first `upto` of `segs`.
pub fn find_last_component(segs: &Vec<Vec<char>>, upto: usize) -> (at: Option<usize>)
    requires
        upto <= segs@.len(),
    ensures
        match at {
            Some(i) => last_component(views(segs@).take(upto as int)) == Some(i as int) && i < upto,
            None => last_component(views(segs@).take(upto as int)) is None,
        },
{
    let ghost all = views(segs@);
    let mut i: usize = upto;
    while i > 0
        invariant
            i <= upto <= segs@.len(),
            all == views(segs@),
            last_component(all.take(upto as int)) == last_component(all.take(i as int)),
        decreases i,
    {
        proof {
            assert(all.take(i as int).drop_last() =~= all.take(i - 1));
            assert(all.take(i as int).last() == segs@[i - 1]@);
        }
        if component(&segs[i - 1]) {
            return Some(i - 1);
        }
        i -= 1;
    }
    None
}

/// Whether `text` holds no slash.
pub open spec fn slash_free(text: Seq<char>) -> bool {
    forall|j: int| 0 <= j < text.len() ==> text[j] != '/'
}

/// Whether each of `parts` is a component other than `..` and holds no slash.
pub open spec fn plain(parts: Seq<Seq<char>>) -> bool {
    forall|i: int|
        0 <= i < parts.len() ==> is_component(#[trigger] parts[i]) && parts[i] != dotdot()
            && slash_free(parts[i])
}

/// No segment of a path holds a slash.
pub proof fn lemma_segments_slash_free(path: Seq<char>)
    ensures
        segments(path).len() > 0,
        forall|i: int| 0 <= i < segments(path).len() ==> slash_free(#[trigger] segments(path)[i]),
    decreases path.len(),
{
    if path.len() > 0 {
        lemma_segments_slash_free(path.drop_last());
    }
}

/// What is left of slash-free segments is plain.
pub proof fn lemma_resolved_plain(segs: Seq<Seq<char>>)
    requires
        forall|i: int| 0 <= i < segs.len() ==> slash_free(#[trigger] segs[i]),
    ensures
        plain(resolved(segs)),
    decreases segs.len(),
{
    if segs.len() > 0 {
        let rest = segs.drop_last();
        assert forall|i: int| 0 <= i < rest.len() implies slash_free(#[trigger] rest[i]) by {
            assert(rest[i] == segs[i]);
        }
        lemma_resolved_plain(rest);
        assert(slash_free(segs[segs.len() - 1]));
    }
}

/// A slash-free text behind a path lengthens the last segment of the path.
pub proof fn lemma_segments_append(path: Seq<char>, text: Seq<char>)
    requires
        slash_free(text),
    ensures
        segments(path).len() > 0,
        segments(path + text) == segments(path).drop_last().push(segments(path).last() + text),
    decreases text.len(),
{
    lemma_segments_slash_free(path);
    let segs = segments(path);
    if text.len() == 0 {
        assert(path + text =~= path);
        assert(segs.last() + text =~= segs.last());
        assert(segs.drop_last().push(segs.last()) =~= segs);
    } else {
        let shorter = text.drop_last();
        assert(slash_free(shorter)) by {
            assert forall|j: int| 0 <= j < shorter.len() implies shorter[j] != '/' by {
                assert(shorter[j] == text[j]);
            }
        }
        lemma_segments_append(path, shorter);
        assert((path + text).drop_last() =~= path + shorter);
        assert((path + text).last() == text[text.len() - 1]);
        assert(text[text.len() - 1] != '/');
        let before = segments(path + shorter);
        assert(before.drop_last() =~= segs.drop_last());
        assert(before.last().push(text.last()) =~= segs.last() + text);
    }
}

/// Plain parts that are joined by slashes are the segments of what they
/// make.
pub proof fn lemma_segments_of_join(parts: Seq<Seq<char>>)
    requires
        parts.len() > 0,
        forall|i: int| 0 <= i < parts.len() ==> slash_free(#[trigger] parts[i]),
    ensures
        segments(join(parts, slash())) == parts,
    decreases parts.len(),
{
    let empty = Seq::<char>::empty();
    if parts.len() == 1 {
        assert(segments(empty) =~= seq![empty]);
        lemma_segments_append(empty, parts[0]);
        assert(empty + parts[0] =~= parts[0]);
        assert(seq![empty].drop_last().push(empty + parts[0]) =~= parts);
    } else {
        let rest = parts.drop_last();
        assert forall|i: int| 0 <= i < rest.len() implies slash_free(#[trigger] rest[i]) by {
            assert(rest[i] == parts[i]);
        }
        lemma_segments_of_join(rest);
        let joined = join(rest, slash());
        let opened = joined + slash();
        assert(opened.drop_last() =~= joined);
        assert(opened.last() == '/');
        assert(segments(opened) == rest.push(empty));
        assert(slash_free(parts[parts.len() - 1]));
        lemma_segments_append(opened, parts.last());
        assert(rest.push(empty).drop_last().push(empty + parts.last()) =~= parts);
    }
}

/// Parts that are joined behind an empty part make the join of the parts
/// behind a slash.
pub proof fn lemma_join_behind_slash(parts: Seq<Seq<char>>)
    requires
        parts.len() > 0,
    ensures
        join(seq![Seq::<char>::empty()] + parts, slash()) == slash() + join(parts, slash()),
    decreases parts.len(),
{
    let empty = Seq::<char>::empty();
    let all = seq![empty] + parts;
    assert(all.drop_last() =~= seq![empty] + parts.drop_last());
    assert(all.last() == parts.last());
    if parts.len() == 1 {
        assert(seq![empty] + parts.drop_last() =~= seq![empty]);
        assert(join(seq![empty], slash()) == empty);
        assert(join(all, slash()) =~= slash() + join(parts, slash()));
    } else {
        lemma_join_behind_slash(parts.drop_last());
        assert(join(all, slash()) =~= slash() + join(parts, slash()));
    }
}

/// Plain parts behind other segments are all left as they are.
pub proof fn lemma_resolved_keeps_plain(before: Seq<Seq<char>>, parts: Seq<Seq<char>>)
    requires
        plain(parts),
    ensures
        resolved(before + parts) == resolved(before) + parts,
    decreases parts.len(),
{
    if parts.len() == 0 {
        assert(before + parts =~= before);
        assert(resolved(before) + parts =~= resolved(before));
    } else {
        let rest = parts.drop_last();
        assert(plain(rest)) by {
            assert forall|i: int| 0 <= i < rest.len() implies is_component(#[trigger] rest[i])
                && rest[i] != dotdot() && slash_free(rest[i]) by {
                assert(rest[i] == parts[i]);
            }
        }
        lemma_resolved_keeps_plain(before, rest);
        assert((before + parts).drop_last() =~= before + rest);
        assert((before + parts).last() == parts[parts.len() - 1]);
        assert(resolved(before + rest).push(parts.last()) =~= resolved(before) + parts);
    }
}

/// What is left of the segments of a path is plain: components other than
/// `.` and `..`.
pub proof fn lemma_normal_parts_plain(path: Seq<char>)
    ensures
        plain(resolved(segments(path))),
{
    lemma_segments_slash_free(path);
    lemma_resolved_plain(segments(path));
}

/// The segments of the normal form of a path: what is left of the segments
/// of the path, behind an empty segment where the path starts with a slash;
/// one empty segment where nothing is left.
pub proof fn lemma_segments_of_normalized(path: Seq<char>)
    ensures
        segments(normalized(path)) == {
            let parts = resolved(segments(path));
            let empty = Seq::<char>::empty();
            if path.len() > 0 && path[0] == '/' {
                if parts.len() == 0 {
                    seq![empty, empty]
                } else {
                    seq![empty] + parts
                }
            } else if parts.len() == 0 {
                seq![empty]
            } else {
                parts
            }
        },
{
    let parts = resolved(segments(path));
    let empty = Seq::<char>::empty();
    lemma_normal_parts_plain(path);
    if path.len() > 0 && path[0] == '/' {
        if parts.len() == 0 {
            assert(join(parts, slash()) =~= empty);
            assert(normalized(path) =~= slash());
            assert(slash().drop_last() =~= empty);
            assert(segments(empty) =~= seq![empty]);
            assert(segments(slash()) =~= seq![empty, empty]);
        } else {
            lemma_join_behind_slash(parts);
            let all = seq![empty] + parts;
            assert forall|i: int| 0 <= i < all.len() implies slash_free(#[trigger] all[i]) by {
                if i > 0 {
                    assert(all[i] == parts[i - 1]);
                }
            }
            lemma_segments_of_join(all);
        }
    } else if parts.len() == 0 {
        assert(normalized(path) =~= empty);
        assert(segments(empty) =~= seq![empty]);
    } else {
        lemma_segments_of_join(parts);
    }
}

/// The normal form of a path holds no `.` and no `..` between its slashes.
pub proof fn lemma_normalized_is_plain(path: Seq<char>)
    ensures
        forall|i: int|
            0 <= i < segments(normalized(path)).len() ==> (#[trigger] segments(
                normalized(path),
            )[i]) != dot() && segments(normalized(path))[i] != dotdot(),
{
    let parts = resolved(segments(path));
    let segs = segments(normalized(path));
    lemma_normal_parts_plain(path);
    lemma_segments_of_normalized(path);
    assert(dot().len() == 1 && dotdot().len() == 2);
    assert forall|i: int| 0 <= i < segs.len() implies (#[trigger] segs[i]) != dot() && segs[i]
        != dotdot() by {
        if path.len() > 0 && path[0] == '/' && parts.len() > 0 && i > 0 {
            assert(segs[i] == parts[i - 1]);
        }
    }
}

/// The normal form of a path is its own normal form.
pub proof fn lemma_normalized_twice(path: Seq<char>)
    ensures
        normalized(normalized(path)) == normalized(path),
{
    let parts = resolved(segments(path));
    let empty = Seq::<char>::empty();
    let normal = normalized(path);
    lemma_normal_parts_plain(path);
    lemma_segments_of_normalized(path);
    assert(resolved(Seq::<Seq<char>>::empty()) =~= Seq::<Seq<char>>::empty());
    assert(seq![empty].drop_last() =~= Seq::<Seq<char>>::empty());
    assert(resolved(seq![empty]) =~= Seq::<Seq<char>>::empty());
    if path.len() > 0 && path[0] == '/' {
        assert(normal[0] == '/');
        if parts.len() == 0 {
            assert(seq![empty, empty].drop_last() =~= seq![empty]);
            assert(resolved(seq![empty, empty]) =~= Seq::<Seq<char>>::empty());
        } else {
            lemma_resolved_keeps_plain(seq![empty], parts);
            assert(resolved(seq![empty]) + parts =~= parts);
        }
    } else if parts.len() == 0 {
        assert(join(parts, slash()) =~= empty);
        assert(normal.len() == 0);
    } else {
        lemma_resolved_keeps_plain(Seq::<Seq<char>>::empty(), parts);
        assert(Seq::<Seq<char>>::empty() + parts =~= parts);
        crate::text::lemma_join_starts(parts, slash());
        assert(parts[0].len() > 0 && parts[0][0] != '/');
        assert(normal[0] == parts[0][0]) by {
            assert(parts[0] =~= normal.subrange(0, parts[0].len() as int));
            assert(normal.subrange(0, parts[0].len() as int)[0] == normal[0]);
        }
    }
}

} // verus!
