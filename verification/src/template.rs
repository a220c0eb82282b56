//! Templates and their locale-tagged content variants.
use vstd::prelude::*;

verus! {

/// One raw template body together with the locales it serves and, optionally, the name
/// under which the caller wants it compiled.
#[derive(Clone, Debug, PartialEq, Eq)]
pub struct Content<LocaleKey> {
    /// The raw, uncompiled body.
    pub content: String,
    /// The locales this body serves.
    pub languages: Vec<LocaleKey>,
    /// The handle name chosen by the caller, if any.
    pub name: Option<String>,
}

impl<LocaleKey> Content<LocaleKey> {
    /// A variant without a caller-assigned name.
    pub fn new(content: String, languages: Vec<LocaleKey>) -> (c: Self)
        ensures
            c.content == content,
            c.languages == languages,
            c.name is None,
    {
        Content { content, languages, name: None }
    }

    /// A variant that is compiled under `name`.
    pub fn named(name: String, content: String, languages: Vec<LocaleKey>) -> (c: Self)
        ensures
            c.content == content,
            c.languages == languages,
            c.name == Some(name),
    {
        Content { content, languages, name: Some(name) }
    }

    /// Whether the caller chose the name `handle` for the variant.
    pub open spec fn is_named(&self, handle: Seq<char>) -> bool {
        self.name matches Some(name) && name@ == handle
    }

    /// Whether the variant serves at least one locale.
    pub open spec fn is_tagged(&self) -> bool {
        self.languages@.len() > 0
    }
}

/// How many of `contents` carry no name of their own.
pub open spec fn unnamed_count<LocaleKey>(contents: Seq<Content<LocaleKey>>) -> nat
    decreases contents.len(),
{
    if contents.len() == 0 {
        0
    } else {
        unnamed_count(contents.drop_last()) + if contents.last().name is None {
            1nat
        } else {
            0nat
        }
    }
}

/// Counting one more variant adds one exactly when that variant has no name.
pub proof fn lemma_unnamed_count_step<LocaleKey>(contents: Seq<Content<LocaleKey>>, j: int)
    requires
        0 <= j < contents.len(),
    ensures
        unnamed_count(contents.take(j + 1)) == unnamed_count(contents.take(j)) + if contents[j].name is None {
            1nat
        } else {
            0nat
        },
{
    assert(contents.take(j + 1).drop_last() =~= contents.take(j));
    assert(contents.take(j + 1).last() == contents[j]);
}

/// Counting none of the variants gives zero; counting all of them gives the count.
pub proof fn lemma_unnamed_count_ends<LocaleKey>(contents: Seq<Content<LocaleKey>>)
    ensures
        unnamed_count(contents.take(0)) == 0,
        unnamed_count(contents.take(contents.len() as int)) == unnamed_count(contents),
{
    assert(contents.take(contents.len() as int) =~= contents);
}

/// A logical piece of content: its variants in the order in which they were added.
/// Where two variants tag the same locale, the later one serves it.
#[derive(Clone, Debug)]
pub struct Template<LocaleKey> {
    contents: Vec<Content<LocaleKey>>,
}

impl<LocaleKey> View for Template<LocaleKey> {
    type V = Seq<Content<LocaleKey>>;

    /// The variants in insertion order.
    closed spec fn view(&self) -> Seq<Content<LocaleKey>> {
        self.contents@
    }
}

impl<LocaleKey> Default for Template<LocaleKey> {
    fn default() -> (t: Self)
        ensures
            t@ == Seq::<Content<LocaleKey>>::empty(),
    {
        Template { contents: Vec::new() }
    }
}

impl<LocaleKey> Template<LocaleKey> {
    /// Every variant serves at least one locale.
    pub open spec fn all_tagged(&self) -> bool {
        forall|i: int| 0 <= i < self@.len() ==> (#[trigger] self@[i]).is_tagged()
    }

    /// A template without variants.
    pub fn new() -> (t: Self)
        ensures
            t@ == Seq::<Content<LocaleKey>>::empty(),
            t.all_tagged(),
    {
        Template { contents: Vec::new() }
    }

    /// The template with `content` appended, or `None` where `content` serves no locale.
    pub fn add_content(self, content: Content<LocaleKey>) -> (r: Option<Self>)
        ensures
            match r {
                Some(t) => content.is_tagged() && t@ == self@.push(content) && (self.all_tagged()
                    ==> t.all_tagged()),
                None => !content.is_tagged(),
            },
    {
        let mut t = self;
        if t.push_content(content) {
            Some(t)
        } else {
            None
        }
    }

    /// Appends `content` in place and says whether it did: a variant that serves no locale
    /// is refused and leaves the template as it was.
    pub fn push_content(&mut self, content: Content<LocaleKey>) -> (added: bool)
        ensures
            added == content.is_tagged(),
            added ==> final(self)@ == old(self)@.push(content),
            !added ==> final(self)@ == old(self)@,
            old(self).all_tagged() ==> final(self).all_tagged(),
    {
        if content.languages.len() == 0 {
            false
        } else {
            self.contents.push(content);
            true
        }
    }

    /// The number of variants.
    pub fn len(&self) -> (n: usize)
        ensures
            n == self@.len(),
    {
        self.contents.len()
    }

    /// The variants in insertion order, borrowed.
    pub fn contents(&self) -> (r: &Vec<Content<LocaleKey>>)
        ensures
            r@ == self@,
    {
        &self.contents
    }

    /// The variants in insertion order.
    pub fn collect_contents(self) -> (r: Vec<Content<LocaleKey>>)
        ensures
            r@ == self@,
    {
        self.contents
    }
}

} // verus!
