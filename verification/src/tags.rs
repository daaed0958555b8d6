//! The record of the tags that a builder has written, and what it means for
//! such a record to be well nested.
use vstd::prelude::*;

verus! {

/// A tag that was written: `Open` for `<name`, `Close` for the ` />` or the
/// `</name>` that ends the element of that name.
pub ghost enum Tag {
    Open(Seq<char>),
    Close(Seq<char>),
}

/// The names of the open elements, outermost first, after one more `tag`;
/// `None` where `tag` closes what is not the innermost open element.
pub open spec fn open_after_tag(open: Seq<Seq<char>>, tag: Tag) -> Option<Seq<Seq<char>>> {
    match tag {
        Tag::Open(name) => Some(open.push(name)),
        Tag::Close(name) => if open.len() > 0 && open.last() == name {
            Some(open.drop_last())
        } else {
            None
        },
    }
}

/// The names of the elements that `tags` leaves open, outermost first; `None`
/// where some closing tag in `tags` does not close the innermost element that
/// is open in front of it.
pub open spec fn open_after(tags: Seq<Tag>) -> Option<Seq<Seq<char>>>
    decreases tags.len(),
{
    if tags.len() == 0 {
        Some(Seq::empty())
    } else {
        match open_after(tags.drop_last()) {
            Some(open) => open_after_tag(open, tags.last()),
            None => None,
        }
    }
}

/// How many opening tags `tags` holds.
pub open spec fn opening(tags: Seq<Tag>) -> nat
    decreases tags.len(),
{
    if tags.len() == 0 {
        0
    } else {
        opening(tags.drop_last()) + if tags.last() is Open {
            1nat
        } else {
            0nat
        }
    }
}

/// How many closing tags `tags` holds.
pub open spec fn closing(tags: Seq<Tag>) -> nat
    decreases tags.len(),
{
    if tags.len() == 0 {
        0
    } else {
        closing(tags.drop_last()) + if tags.last() is Close {
            1nat
        } else {
            0nat
        }
    }
}

/// One more tag after `tags`.
pub proof fn lemma_open_after_push(tags: Seq<Tag>, tag: Tag)
    ensures
        open_after(tags.push(tag)) == match open_after(tags) {
            Some(open) => open_after_tag(open, tag),
            None => None,
        },
{
    assert(tags.push(tag).drop_last() =~= tags);
}

/// Where a record is well nested, so is each of its beginnings.
pub proof fn lemma_open_after_prefix(tags: Seq<Tag>, len: int)
    requires
        open_after(tags) is Some,
        0 <= len <= tags.len(),
    ensures
        open_after(tags.take(len)) is Some,
    decreases tags.len(),
{
    if len < tags.len() {
        assert(tags.drop_last().take(len) =~= tags.take(len));
        lemma_open_after_prefix(tags.drop_last(), len);
    } else {
        assert(tags.take(len) =~= tags);
    }
}

/// In a well-nested record there are as many opening tags as there are
/// closing tags and elements still open.
pub proof fn lemma_tags_balance(tags: Seq<Tag>)
    requires
        open_after(tags) is Some,
    ensures
        opening(tags) == closing(tags) + open_after(tags)->Some_0.len(),
    decreases tags.len(),
{
    if tags.len() > 0 {
        lemma_tags_balance(tags.drop_last());
    }
}

/// In a well-nested record each closing tag bears the name of the innermost
/// element that is open in front of it.
pub proof fn lemma_closing_tag_matches(tags: Seq<Tag>, at: int)
    requires
        open_after(tags) is Some,
        0 <= at < tags.len(),
        tags[at] is Close,
    ensures
        open_after(tags.take(at)) matches Some(open) && open.len() > 0 && open.last()
            == tags[at]->Close_0,
{
    lemma_open_after_prefix(tags, at + 1);
    let upto = tags.take(at + 1);
    assert(upto.drop_last() =~= tags.take(at));
}

} // verus!
