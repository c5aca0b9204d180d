//! Walks over a tree of sections: over what stands right under one section,
//! and over everything below it.

use crate::content::ContentView;
use crate::headline::{groups_option_view, HeadlineGroup, HeadlineGroupView};
use crate::object::{Object, ObjectView};
use vstd::prelude::*;

verus! {

/// The sections of `groups` and everything under them: each section, then
/// what is under it, then the sections after it.
pub open spec fn all_headlines_of(groups: Seq<HeadlineGroupView>) -> Seq<HeadlineGroupView>
    decreases groups,
{
    if groups.len() == 0 {
        Seq::empty()
    } else {
        seq![groups[0]] + match groups[0].sub_headlines {
            Some(under) => all_headlines_of(under),
            None => Seq::empty(),
        } + all_headlines_of(groups.drop_first())
    }
}

/// `blocks` as objects.
pub open spec fn content_objects(blocks: Seq<ContentView>) -> Seq<ObjectView> {
    Seq::new(blocks.len(), |i: int| ObjectView::Content(blocks[i]))
}

/// `groups` as objects.
pub open spec fn group_objects(groups: Seq<HeadlineGroupView>) -> Seq<ObjectView> {
    Seq::new(groups.len(), |i: int| ObjectView::Headline(groups[i]))
}

/// What stands right under `group`: its content blocks, then its sections.
pub open spec fn sub_objects_of(group: HeadlineGroupView) -> Seq<ObjectView> {
    content_objects(group.contents()) + group_objects(group.children())
}

/// Each section of `groups` followed by everything under it.
pub open spec fn all_objects_of_groups(groups: Seq<HeadlineGroupView>) -> Seq<ObjectView>
    decreases groups, 0nat,
{
    if groups.len() == 0 {
        Seq::empty()
    } else {
        seq![ObjectView::Headline(groups[0])] + all_objects_of(groups[0]) + all_objects_of_groups(
            groups.drop_first(),
        )
    }
}

/// Everything under `group`: its content blocks, then each of its sections
/// followed by everything under that section.
pub open spec fn all_objects_of(group: HeadlineGroupView) -> Seq<ObjectView>
    decreases group, 1nat,
{
    content_objects(group.contents()) + match group.sub_headlines {
        Some(under) => all_objects_of_groups(under),
        None => Seq::empty(),
    }
}

/// A walk over the sections right under one section.
pub struct SubHeadlines<'t> {
    sub_headlines: &'t Option<Vec<HeadlineGroup>>,
    index: usize,
}

impl<'t> SubHeadlines<'t> {
    /// The sections that the walk has yet to yield, in order.
    pub closed spec fn remaining(&self) -> Seq<HeadlineGroupView> {
        let all = groups_option_view(*self.sub_headlines);
        if self.index <= all.len() {
            all.skip(self.index as int)
        } else {
            Seq::empty()
        }
    }

    /// A walk over `sub_headlines`, from the first.
    pub fn new(sub_headlines: &'t Option<Vec<HeadlineGroup>>) -> (r: Self)
        ensures
            r.remaining() == groups_option_view(*sub_headlines),
    {
        let r = SubHeadlines { sub_headlines, index: 0 };
        assert(r.remaining() =~= groups_option_view(*sub_headlines));
        r
    }

    /// The next section, if there is one.
    pub fn next(&mut self) -> (r: Option<&'t HeadlineGroup>)
        ensures
            match r {
                Some(group) => old(self).remaining().len() > 0 && group@ == old(
                    self,
                ).remaining()[0] && final(self).remaining() == old(self).remaining().drop_first(),
                None => old(self).remaining().len() == 0 && final(self).remaining().len() == 0,
            },
    {
        match self.sub_headlines {
            Some(groups) => {
                if self.index < groups.len() {
                    let group = &groups[self.index];
                    self.index = self.index + 1;
                    proof {
                        assert(self.remaining() =~= old(self).remaining().drop_first());
                    }
                    Some(group)
                } else {
                    None
                }
            },
            None => None,
        }
    }

    /// The sections that are left, in order.
    pub fn collect(self) -> (r: Vec<&'t HeadlineGroup>)
        ensures
            r@.len() == self.remaining().len(),
            forall|i: int| 0 <= i < r@.len() ==> (#[trigger] r@[i])@ == self.remaining()[i],
    {
        let mut walk = self;
        let mut r: Vec<&'t HeadlineGroup> = Vec::new();
        loop
            invariant
                r@.len() + walk.remaining().len() == self.remaining().len(),
                forall|i: int| 0 <= i < r@.len() ==> (#[trigger] r@[i])@ == self.remaining()[i],
                forall|i: int|
                    0 <= i < walk.remaining().len() ==> #[trigger] walk.remaining()[i]
                        == self.remaining()[r@.len() + i],
            decreases walk.remaining().len(),
        {
            let ghost before = walk.remaining();
            match walk.next() {
                Some(group) => {
                    r.push(group);
                    assert forall|i: int| 0 <= i < walk.remaining().len() implies
                        #[trigger] walk.remaining()[i] == self.remaining()[r@.len() + i] by {
                        assert(walk.remaining()[i] == before[i + 1]);
                    }
                },
                None => {
                    return r;
                },
            }
        }
    }
}

/// A walk over what stands right under one section: its content blocks,
/// then its sections.
pub struct SubObjects<'t> {
    headline_group: &'t HeadlineGroup,
    content_index: usize,
    headline_index: usize,
}

impl<'t> SubObjects<'t> {
    /// The section whose objects are walked, as plain data.
    pub closed spec fn group(&self) -> HeadlineGroupView {
        self.headline_group@
    }

    /// How many objects the walk has yielded.
    pub closed spec fn position(&self) -> nat {
        (self.content_index + self.headline_index) as nat
    }

    /// The walk goes through the content blocks before it starts on the
    /// sections, and never past the end of either.
    #[verifier::type_invariant]
    closed spec fn in_order(&self) -> bool {
        &&& self.content_index <= self.headline_group@.contents().len()
        &&& self.headline_index <= self.headline_group@.children().len()
        &&& self.headline_index > 0 ==> self.content_index
            == self.headline_group@.contents().len()
    }

    /// The objects that the walk has yet to yield, in order.
    pub open spec fn remaining(&self) -> Seq<ObjectView> {
        let all = sub_objects_of(self.group());
        if self.position() <= all.len() {
            all.skip(self.position() as int)
        } else {
            Seq::empty()
        }
    }

    /// A walk over what stands right under `headline_group`, from the first object.
    pub fn new(headline_group: &'t HeadlineGroup) -> (r: Self)
        ensures
            r.group() == headline_group@,
            r.position() == 0,
            r.remaining() == sub_objects_of(headline_group@),
    {
        let r = SubObjects { headline_group, content_index: 0, headline_index: 0 };
        assert(r.remaining() =~= sub_objects_of(headline_group@));
        r
    }

    /// The next object, if there is one.
    pub fn next(&mut self) -> (r: Option<Object<'t>>)
        ensures
            final(self).group() == old(self).group(),
            match r {
                Some(object) => old(self).remaining().len() > 0 && object@ == old(
                    self,
                ).remaining()[0] && final(self).position() == old(self).position() + 1
                    && final(self).remaining() == old(self).remaining().drop_first(),
                None => old(self).remaining().len() == 0 && final(self).position() == old(
                    self,
                ).position(),
            },
    {
        proof {
            use_type_invariant(&*self);
            self.headline_group.lemma_view();
        }
        let blocks = self.headline_group.content_len();
        if self.content_index < blocks {
            match &self.headline_group.content {
                Some(content) => {
                    let block = &content[self.content_index];
                    self.content_index = self.content_index + 1;
                    proof {
                        assert(self.remaining() =~= old(self).remaining().drop_first());
                    }
                    Some(Object::Content(block))
                },
                None => None,
            }
        } else {
            match &self.headline_group.sub_headlines {
                Some(groups) => {
                    if self.headline_index < groups.len() {
                        let group = &groups[self.headline_index];
                        self.headline_index = self.headline_index + 1;
                        proof {
                            assert(self.remaining() =~= old(self).remaining().drop_first());
                        }
                        Some(Object::Headline(group))
                    } else {
                        None
                    }
                },
                None => None,
            }
        }
    }

    /// The objects that are left, in order.
    pub fn collect(self) -> (r: Vec<Object<'t>>)
        ensures
            r@.len() == self.remaining().len(),
            forall|i: int| 0 <= i < r@.len() ==> (#[trigger] r@[i])@ == self.remaining()[i],
    {
        let mut walk = self;
        let mut r: Vec<Object<'t>> = Vec::new();
        loop
            invariant
                r@.len() + walk.remaining().len() == self.remaining().len(),
                forall|i: int| 0 <= i < r@.len() ==> (#[trigger] r@[i])@ == self.remaining()[i],
                forall|i: int|
                    0 <= i < walk.remaining().len() ==> #[trigger] walk.remaining()[i]
                        == self.remaining()[r@.len() + i],
            decreases walk.remaining().len(),
        {
            let ghost before = walk.remaining();
            match walk.next() {
                Some(object) => {
                    r.push(object);
                    assert forall|i: int| 0 <= i < walk.remaining().len() implies
                        #[trigger] walk.remaining()[i] == self.remaining()[r@.len() + i] by {
                        assert(walk.remaining()[i] == before[i + 1]);
                    }
                },
                None => {
                    return r;
                },
            }
        }
    }
}

/// What the walks on `stack` have yet to yield together: for each walk, from
/// the last pushed to the first, its sections, each followed by what is under it.
pub open spec fn headlines_on(stack: Seq<SubHeadlines>) -> Seq<HeadlineGroupView>
    decreases stack.len(),
{
    if stack.len() == 0 {
        Seq::empty()
    } else {
        all_headlines_of(stack.last().remaining()) + headlines_on(stack.drop_last())
    }
}

/// Yields the next section of a walk over a whole tree, kept as a stack of
/// walks over the sections of one level each, and steps into that section.
pub fn find_next_headline<'a>(stack: &mut Vec<SubHeadlines<'a>>) -> (r: Option<
    &'a HeadlineGroup,
>)
    ensures
        match r {
            Some(group) => headlines_on(old(stack)@).len() > 0 && group@ == headlines_on(
                old(stack)@,
            )[0] && headlines_on(final(stack)@) == headlines_on(old(stack)@).drop_first(),
            None => headlines_on(old(stack)@).len() == 0 && final(stack)@.len() == 0,
        },
{
    loop
        invariant
            headlines_on(stack@) == headlines_on(old(stack)@),
        decreases stack@.len(),
    {
        let ghost before = stack@;
        match stack.pop() {
            None => {
                return None;
            },
            Some(mut walk) => {
                let ghost rest = stack@;
                let ghost left = walk.remaining();
                assert(before.drop_last() =~= rest);
                assert(before.last() == walk);
                match walk.next() {
                    Some(group) => {
                        stack.push(walk);
                        let under = group.sub_headlines();
                        stack.push(under);
                        proof {
                            let one = rest.push(walk);
                            assert(stack@.drop_last() =~= one);
                            assert(stack@.last() == under);
                            assert(one.drop_last() =~= rest);
                            assert(one.last() == walk);
                            assert(headlines_on(one) == all_headlines_of(walk.remaining())
                                + headlines_on(rest));
                            assert(headlines_on(stack@) == all_headlines_of(under.remaining())
                                + headlines_on(one));
                            assert(all_headlines_of(Seq::<HeadlineGroupView>::empty())
                                =~= Seq::empty());
                            assert(all_headlines_of(left) == seq![left[0]] + all_headlines_of(
                                group@.children(),
                            ) + all_headlines_of(left.drop_first()));
                            assert(headlines_on(before) == all_headlines_of(left) + headlines_on(
                                rest,
                            ));
                            assert(headlines_on(stack@) =~= headlines_on(before).drop_first());
                        }
                        return Some(group);
                    },
                    None => {
                        assert(left =~= Seq::empty());
                        assert(headlines_on(rest) =~= headlines_on(before));
                    },
                }
            },
        }
    }
}

/// A walk over all the sections under one section, each before the
/// sections under it.
pub struct Headlines<'a> {
    stack: Vec<SubHeadlines<'a>>,
}

impl<'a> Headlines<'a> {
    /// The sections that the walk has yet to yield, in order.
    pub closed spec fn remaining(&self) -> Seq<HeadlineGroupView> {
        headlines_on(self.stack@)
    }

    /// A walk over the sections that `sub_headlines` has yet to yield and
    /// over everything under them.
    pub fn new(sub_headlines: SubHeadlines<'a>) -> (r: Self)
        ensures
            r.remaining() == all_headlines_of(sub_headlines.remaining()),
    {
        let mut stack: Vec<SubHeadlines<'a>> = Vec::new();
        stack.push(sub_headlines);
        proof {
            assert(stack@.drop_last() =~= Seq::<SubHeadlines>::empty());
            assert(stack@.last() == sub_headlines);
            assert(headlines_on(stack@.drop_last()) =~= Seq::empty());
            assert(headlines_on(stack@) =~= all_headlines_of(sub_headlines.remaining()));
        }
        Headlines { stack }
    }

    /// The next section, if there is one.
    pub fn next(&mut self) -> (r: Option<&'a HeadlineGroup>)
        ensures
            match r {
                Some(group) => old(self).remaining().len() > 0 && group@ == old(
                    self,
                ).remaining()[0] && final(self).remaining() == old(self).remaining().drop_first(),
                None => old(self).remaining().len() == 0 && final(self).remaining().len() == 0,
            },
    {
        find_next_headline(&mut self.stack)
    }

    /// The sections that are left, in order.
    pub fn collect(self) -> (r: Vec<&'a HeadlineGroup>)
        ensures
            r@.len() == self.remaining().len(),
            forall|i: int| 0 <= i < r@.len() ==> (#[trigger] r@[i])@ == self.remaining()[i],
    {
        let mut walk = self;
        let mut r: Vec<&'a HeadlineGroup> = Vec::new();
        loop
            invariant
                r@.len() + walk.remaining().len() == self.remaining().len(),
                forall|i: int| 0 <= i < r@.len() ==> (#[trigger] r@[i])@ == self.remaining()[i],
                forall|i: int|
                    0 <= i < walk.remaining().len() ==> #[trigger] walk.remaining()[i]
                        == self.remaining()[r@.len() + i],
            decreases walk.remaining().len(),
        {
            let ghost before = walk.remaining();
            match walk.next() {
                Some(group) => {
                    r.push(group);
                    assert forall|i: int| 0 <= i < walk.remaining().len() implies
                        #[trigger] walk.remaining()[i] == self.remaining()[r@.len() + i] by {
                        assert(walk.remaining()[i] == before[i + 1]);
                    }
                },
                None => {
                    return r;
                },
            }
        }
    }
}

/// `objects` with, behind each section among them, everything under that section.
pub open spec fn expand(objects: Seq<ObjectView>) -> Seq<ObjectView>
    decreases objects.len(),
{
    if objects.len() == 0 {
        Seq::empty()
    } else {
        seq![objects[0]] + match objects[0] {
            ObjectView::Headline(group) => all_objects_of(group),
            ObjectView::Content(_) => Seq::empty(),
        } + expand(objects.drop_first())
    }
}

/// Expanding two runs of objects is expanding each.
pub proof fn lemma_expand_add(a: Seq<ObjectView>, b: Seq<ObjectView>)
    ensures
        expand(a + b) == expand(a) + expand(b),
    decreases a.len(),
{
    if a.len() == 0 {
        assert(a + b =~= b);
        assert(expand(a) + expand(b) =~= expand(b));
    } else {
        lemma_expand_add(a.drop_first(), b);
        assert((a + b).drop_first() =~= a.drop_first() + b);
        assert((a + b)[0] == a[0]);
        assert(expand(a + b) =~= expand(a) + expand(b));
    }
}

/// Content blocks have nothing under them.
pub proof fn lemma_expand_contents(blocks: Seq<ContentView>)
    ensures
        expand(content_objects(blocks)) == content_objects(blocks),
    decreases blocks.len(),
{
    let objects = content_objects(blocks);
    if blocks.len() > 0 {
        lemma_expand_contents(blocks.drop_first());
        assert(objects.drop_first() =~= content_objects(blocks.drop_first()));
        assert(expand(objects) =~= objects);
    }
}

/// Expanding sections is walking them with everything under them.
pub proof fn lemma_expand_groups(groups: Seq<HeadlineGroupView>)
    ensures
        expand(group_objects(groups)) == all_objects_of_groups(groups),
    decreases groups.len(),
{
    let objects = group_objects(groups);
    if groups.len() > 0 {
        lemma_expand_groups(groups.drop_first());
        assert(objects.drop_first() =~= group_objects(groups.drop_first()));
        assert(expand(objects) =~= all_objects_of_groups(groups));
    }
}

/// Expanding what stands right under a section gives everything under it.
pub proof fn lemma_expand_sub_objects(group: HeadlineGroupView)
    ensures
        expand(sub_objects_of(group)) == all_objects_of(group),
{
    lemma_expand_add(content_objects(group.contents()), group_objects(group.children()));
    lemma_expand_contents(group.contents());
    lemma_expand_groups(group.children());
    match group.sub_headlines {
        Some(under) => {},
        None => {
            assert(all_objects_of_groups(Seq::empty()) =~= Seq::empty());
        },
    }
}

/// What the walks on `stack` have yet to yield together: for each walk, from
/// the last pushed to the first, its objects, each section among them
/// followed by everything under it.
pub open spec fn objects_on(stack: Seq<SubObjects>) -> Seq<ObjectView>
    decreases stack.len(),
{
    if stack.len() == 0 {
        Seq::empty()
    } else {
        expand(stack.last().remaining()) + objects_on(stack.drop_last())
    }
}

/// Yields the next object of a walk over a whole tree, kept as a stack of
/// walks over one section each, and steps into the object if it is a section.
pub fn find_next_object<'a>(stack: &mut Vec<SubObjects<'a>>) -> (r: Option<Object<'a>>)
    ensures
        match r {
            Some(object) => objects_on(old(stack)@).len() > 0 && object@ == objects_on(
                old(stack)@,
            )[0] && objects_on(final(stack)@) == objects_on(old(stack)@).drop_first(),
            None => objects_on(old(stack)@).len() == 0 && final(stack)@.len() == 0,
        },
{
    loop
        invariant
            objects_on(stack@) == objects_on(old(stack)@),
        decreases stack@.len(),
    {
        let ghost before = stack@;
        match stack.pop() {
            None => {
                return None;
            },
            Some(mut walk) => {
                let ghost rest = stack@;
                let ghost left = walk.remaining();
                assert(before.drop_last() =~= rest);
                assert(before.last() == walk);
                match walk.next() {
                    Some(object) => {
                        stack.push(walk);
                        let ghost one = stack@;
                        proof {
                            assert(one.drop_last() =~= rest);
                            assert(one.last() == walk);
                            assert(objects_on(one) == expand(left.drop_first()) + objects_on(
                                rest,
                            ));
                            assert(objects_on(before) == expand(left) + objects_on(rest));
                            assert(left[0] == object@);
                        }
                        match object {
                            Object::Headline(group) => {
                                let under = group.sub_objects();
                                stack.push(under);
                                proof {
                                    assert(stack@.drop_last() =~= one);
                                    assert(stack@.last() == under);
                                    lemma_expand_sub_objects(group@);
                                    assert(objects_on(stack@) == all_objects_of(group@)
                                        + objects_on(one));
                                    assert(expand(left) == seq![left[0]] + all_objects_of(group@)
                                        + expand(left.drop_first()));
                                    assert(objects_on(stack@) =~= objects_on(before).drop_first());
                                }
                            },
                            Object::Content(_) => {
                                proof {
                                    assert(expand(left) =~= seq![left[0]] + expand(
                                        left.drop_first(),
                                    ));
                                    assert(objects_on(stack@) =~= objects_on(before).drop_first());
                                }
                            },
                        }
                        return Some(object);
                    },
                    None => {
                        assert(left =~= Seq::empty());
                        assert(objects_on(rest) =~= objects_on(before));
                    },
                }
            },
        }
    }
}

/// A walk over everything under one section, in the order of the text.
pub struct AllObjects<'a> {
    stack: Vec<SubObjects<'a>>,
}

impl<'a> AllObjects<'a> {
    /// The objects that the walk has yet to yield, in order.
    pub closed spec fn remaining(&self) -> Seq<ObjectView> {
        objects_on(self.stack@)
    }

    /// A walk over everything under `group`.
    pub fn new(group: &'a HeadlineGroup) -> (r: Self)
        ensures
            r.remaining() == all_objects_of(group@),
    {
        let mut stack: Vec<SubObjects<'a>> = Vec::new();
        let walk = SubObjects::new(group);
        stack.push(walk);
        proof {
            assert(stack@.drop_last() =~= Seq::<SubObjects>::empty());
            assert(stack@.last() == walk);
            assert(objects_on(stack@.drop_last()) =~= Seq::empty());
            lemma_expand_sub_objects(group@);
            assert(objects_on(stack@) =~= all_objects_of(group@));
        }
        AllObjects { stack }
    }

    /// The next object, if there is one.
    pub fn next(&mut self) -> (r: Option<Object<'a>>)
        ensures
            match r {
                Some(object) => old(self).remaining().len() > 0 && object@ == old(
                    self,
                ).remaining()[0] && final(self).remaining() == old(self).remaining().drop_first(),
                None => old(self).remaining().len() == 0 && final(self).remaining().len() == 0,
            },
    {
        find_next_object(&mut self.stack)
    }

    /// The objects that are left, in order.
    pub fn collect(self) -> (r: Vec<Object<'a>>)
        ensures
            r@.len() == self.remaining().len(),
            forall|i: int| 0 <= i < r@.len() ==> (#[trigger] r@[i])@ == self.remaining()[i],
    {
        let mut walk = self;
        let mut r: Vec<Object<'a>> = Vec::new();
        loop
            invariant
                r@.len() + walk.remaining().len() == self.remaining().len(),
                forall|i: int| 0 <= i < r@.len() ==> (#[trigger] r@[i])@ == self.remaining()[i],
                forall|i: int|
                    0 <= i < walk.remaining().len() ==> #[trigger] walk.remaining()[i]
                        == self.remaining()[r@.len() + i],
            decreases walk.remaining().len(),
        {
            let ghost before = walk.remaining();
            match walk.next() {
                Some(object) => {
                    r.push(object);
                    assert forall|i: int| 0 <= i < walk.remaining().len() implies
                        #[trigger] walk.remaining()[i] == self.remaining()[r@.len() + i] by {
                        assert(walk.remaining()[i] == before[i + 1]);
                    }
                },
                None => {
                    return r;
                },
            }
        }
    }
}

} // verus!
