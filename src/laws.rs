//! What holds of the parser and of the registry's operations across all inputs.
use vstd::prelude::*;
use crate::entry::{
    lines_of, last_value, field_of, exec_of, name_of, icon_of, exec_key, name_key, icon_key, parses,
    lemma_lines_nonempty,
};
use crate::repository::{
    EntryFile, listed_texts, has_marker, named, first_named_at, none_named,
};

verus! {

/// The text made of `ls` with a newline between each two of them.
pub open spec fn join_lines(ls: Seq<Seq<char>>) -> Seq<char>
    decreases ls.len(),
{
    if ls.len() == 0 {
        Seq::<char>::empty()
    } else if ls.len() == 1 {
        ls[0]
    } else {
        join_lines(ls.drop_last()) + seq!['\n'] + ls.last()
    }
}

/// Appending characters without newline extends the last line.
proof fn lemma_lines_append_plain(p: Seq<char>, q: Seq<char>)
    requires
        !q.contains('\n'),
    ensures
        lines_of(p + q) == lines_of(p).update(lines_of(p).len() - 1, lines_of(p).last() + q),
    decreases q.len(),
{
    lemma_lines_nonempty(p);
    if q.len() == 0 {
        assert(p + q =~= p);
        assert(lines_of(p).last() + q =~= lines_of(p).last());
        assert(lines_of(p).update(lines_of(p).len() - 1, lines_of(p).last()) =~= lines_of(p));
    } else {
        let q1 = q.drop_last();
        assert forall|i: int| 0 <= i < q1.len() implies q1[i] != '\n' by {
            assert(q1[i] == q[i]);
        }
        lemma_lines_append_plain(p, q1);
        assert((p + q).drop_last() =~= p + q1);
        assert(q.last() != '\n') by {
            assert(q[q.len() - 1] == q.last());
        }
        assert((lines_of(p).last() + q1).push(q.last()) =~= lines_of(p).last() + q);
        assert(lines_of(p + q) =~= lines_of(p).update(
            lines_of(p).len() - 1,
            lines_of(p).last() + q,
        ));
    }
}

/// Appending a newline starts an empty line.
proof fn lemma_lines_append_newline(p: Seq<char>)
    ensures
        lines_of(p + seq!['\n']) == lines_of(p).push(Seq::<char>::empty()),
{
    assert((p + seq!['\n']).drop_last() =~= p);
}

/// Splitting lines that hold no newline, once joined, gives those lines back.
pub proof fn lemma_split_join(ls: Seq<Seq<char>>)
    requires
        ls.len() >= 1,
        forall|i: int| 0 <= i < ls.len() ==> !(#[trigger] ls[i]).contains('\n'),
    ensures
        lines_of(join_lines(ls)) == ls,
    decreases ls.len(),
{
    if ls.len() == 1 {
        lemma_lines_append_plain(Seq::<char>::empty(), ls[0]);
        assert(Seq::<char>::empty() + ls[0] =~= ls[0]);
        assert(Seq::<char>::empty() + ls[0] =~= ls[0]);
        assert(lines_of(Seq::<char>::empty()).update(0, Seq::<char>::empty() + ls[0]) =~= ls);
    } else {
        let init = ls.drop_last();
        assert forall|i: int| 0 <= i < init.len() implies !(#[trigger] init[i]).contains('\n') by {
            assert(init[i] == ls[i]);
        }
        lemma_split_join(init);
        let j = join_lines(init);
        lemma_lines_append_newline(j);
        assert(!ls[ls.len() - 1].contains('\n'));
        lemma_lines_append_plain(j + seq!['\n'], ls.last());
        assert(init.push(Seq::<char>::empty()).update(
            init.len() as int,
            Seq::<char>::empty() + ls.last(),
        ) =~= ls);
    }
}

/// Parsing reads back what was written: for a text made of lines that hold
/// no newline, each field is the value of the last of those lines that
/// begins with the field's key.
pub proof fn law_parse_round_trip(ls: Seq<Seq<char>>)
    requires
        ls.len() >= 1,
        forall|i: int| 0 <= i < ls.len() ==> !(#[trigger] ls[i]).contains('\n'),
    ensures
        exec_of(join_lines(ls)) == last_value(ls, exec_key()),
        name_of(join_lines(ls)) == last_value(ls, name_key()),
        icon_of(join_lines(ls)) == last_value(ls, icon_key()),
{
    lemma_split_join(ls);
}

/// The last line wins: where line `k` begins with `key` and no later line
/// does, the field's value is the rest of line `k`.
pub proof fn law_last_line_wins(ls: Seq<Seq<char>>, key: Seq<char>, k: int)
    requires
        0 <= k < ls.len(),
        key.is_prefix_of(ls[k]),
        forall|j: int| k < j < ls.len() ==> !key.is_prefix_of(#[trigger] ls[j]),
    ensures
        last_value(ls, key) == ls[k].subrange(key.len() as int, ls[k].len() as int),
    decreases ls.len(),
{
    if k < ls.len() - 1 {
        let init = ls.drop_last();
        assert(!key.is_prefix_of(ls[ls.len() - 1]));
        assert forall|j: int| k < j < init.len() implies !key.is_prefix_of(#[trigger] init[j]) by {
            assert(init[j] == ls[j]);
        }
        law_last_line_wins(init, key, k);
    }
}

/// No line begins with `key`: the value is empty.
proof fn lemma_no_line_no_value(ls: Seq<Seq<char>>, key: Seq<char>)
    requires
        forall|j: int| 0 <= j < ls.len() ==> !key.is_prefix_of(#[trigger] ls[j]),
    ensures
        last_value(ls, key).len() == 0,
    decreases ls.len(),
{
    if ls.len() > 0 {
        let init = ls.drop_last();
        assert(!key.is_prefix_of(ls[ls.len() - 1]));
        assert forall|j: int| 0 <= j < init.len() implies !key.is_prefix_of(#[trigger] init[j]) by {
            assert(init[j] == ls[j]);
        }
        lemma_no_line_no_value(init, key);
    }
}

/// A text in which no line begins with one of the three keys does not parse.
pub proof fn law_missing_field_fails(t: Seq<char>, key: Seq<char>)
    requires
        key == exec_key() || key == name_key() || key == icon_key(),
        forall|j: int| 0 <= j < lines_of(t).len() ==> !key.is_prefix_of(#[trigger] lines_of(t)[j]),
    ensures
        field_of(t, key).len() == 0,
        !parses(t),
{
    lemma_no_line_no_value(lines_of(t), key);
}

/// The listing holds only texts that carry the marker and parse, each the
/// text of one of the files.
pub proof fn law_marker_isolation(files: Seq<EntryFile>)
    ensures
        forall|k: int|
            0 <= k < listed_texts(files).len() ==> {
                &&& has_marker(#[trigger] listed_texts(files)[k])
                &&& parses(listed_texts(files)[k])
                &&& exists|j: int| 0 <= j < files.len() && files[j].content@ == listed_texts(files)[k]
            },
    decreases files.len(),
{
    if files.len() > 0 {
        let init = files.drop_last();
        law_marker_isolation(init);
        assert forall|k: int| 0 <= k < listed_texts(files).len() implies {
            &&& has_marker(#[trigger] listed_texts(files)[k])
            &&& parses(listed_texts(files)[k])
            &&& exists|j: int| 0 <= j < files.len() && files[j].content@ == listed_texts(files)[k]
        } by {
            if k < listed_texts(init).len() {
                let j = choose|j: int| 0 <= j < init.len() && init[j].content@ == listed_texts(init)[k];
                assert(files[j] == init[j]);
            } else {
                assert(files[files.len() - 1].content@ == listed_texts(files)[k]);
            }
        }
    }
}

/// Where no file carries the marker (an empty directory among them), the listing is empty.
pub proof fn law_empty_listing(files: Seq<EntryFile>)
    requires
        forall|j: int| 0 <= j < files.len() ==> !has_marker(#[trigger] files[j].content@),
    ensures
        listed_texts(files).len() == 0,
    decreases files.len(),
{
    if files.len() > 0 {
        let init = files.drop_last();
        assert(!has_marker(files[files.len() - 1].content@));
        assert forall|j: int| 0 <= j < init.len() implies !has_marker(#[trigger] init[j].content@) by {
            assert(init[j] == files[j]);
        }
        law_empty_listing(init);
    }
}

/// Of two managed files, one that parses and one that does not, in either
/// order, the listing holds the one that parses and nothing else.
pub proof fn law_skip_unparsed(good: EntryFile, bad: EntryFile)
    requires
        has_marker(good.content@),
        parses(good.content@),
        has_marker(bad.content@),
        !parses(bad.content@),
    ensures
        listed_texts(seq![good, bad]) == seq![good.content@],
        listed_texts(seq![bad, good]) == seq![good.content@],
{
    let e = Seq::<EntryFile>::empty();
    assert(listed_texts(e) == Seq::<Seq<char>>::empty());
    assert(seq![good].drop_last() =~= e);
    assert(seq![bad].drop_last() =~= e);
    assert(listed_texts(seq![good]) =~= seq![good.content@]);
    assert(listed_texts(seq![bad]) =~= Seq::<Seq<char>>::empty());
    assert(seq![good, bad].drop_last() =~= seq![good]);
    assert(seq![bad, good].drop_last() =~= seq![bad]);
    assert(listed_texts(seq![good, bad]) == listed_texts(seq![good]));
    assert(listed_texts(seq![bad, good]) =~= seq![good.content@]);
}

/// Deleting removes one file; where the name was held by that file alone,
/// no file is named so afterwards, so deleting it again finds nothing.
pub proof fn law_delete_once(files: Seq<EntryFile>, q: Seq<char>, k: int)
    requires
        first_named_at(files, q, k),
        forall|j: int| 0 <= j < files.len() && j != k ==> !named(#[trigger] files[j].content@, q),
    ensures
        files.remove(k).len() == files.len() - 1,
        none_named(files.remove(k), q),
{
    let rest = files.remove(k);
    assert forall|j: int| 0 <= j < rest.len() implies !named(#[trigger] rest[j].content@, q) by {
        if j < k {
            assert(rest[j] == files[j]);
        } else {
            assert(rest[j] == files[j + 1]);
        }
    }
}

} // verus!
