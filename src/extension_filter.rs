//! Keeping only items whose file extension is in an allowed set.
use vstd::prelude::*;
use crate::item::{Item, ItemSource, ItemView, KeepRule, kept, lemma_kept_idempotent, pull_count};
use crate::path::bytes_equal;
use vstd::string::StringSliceAdditionalSpecFns;

verus! {

/// Views of a sequence of byte strings.
pub open spec fn byte_strings_view(v: Seq<Vec<u8>>) -> Seq<Seq<u8>> {
    v.map_values(|b: Vec<u8>| b@)
}

/// The bytes of each text.
pub open spec fn texts_bytes(texts: Seq<&str>) -> Seq<Seq<u8>> {
    texts.map_values(|t: &str| t.spec_bytes())
}

/// What an extension filter with the allowed extensions `allowed` lets
/// through from `s`: failure items, and items whose extension, compared
/// exactly, is one of `allowed`. Items without an extension are dropped.
pub open spec fn extension_kept(s: Seq<ItemView>, allowed: Seq<Seq<u8>>) -> Seq<ItemView> {
    kept(s, KeepRule::Extensions(allowed))
}

/// Whether `ext` is one of `allowed`, compared byte for byte.
pub fn extension_is_allowed(allowed: &Vec<Vec<u8>>, ext: &Vec<u8>) -> (r: bool)
    ensures
        r == byte_strings_view(allowed@).contains(ext@),
{
    let mut i: usize = 0;
    while i < allowed.len()
        invariant
            i <= allowed.len(),
            forall|j: int| 0 <= j < i ==> (#[trigger] allowed@[j])@ != ext@,
        decreases allowed.len() - i,
    {
        if bytes_equal(&allowed[i], ext) {
            assert(byte_strings_view(allowed@)[i as int] == ext@);
            return true;
        }
        i = i + 1;
    }
    assert forall|j: int| 0 <= j < byte_strings_view(allowed@).len() implies byte_strings_view(
        allowed@,
    )[j] != ext@ by {
        assert(allowed@[j]@ != ext@);
    }
    false
}

/// Whether an extension filter allowing `allowed` lets `item` through.
pub fn extension_allows_item(allowed: &Vec<Vec<u8>>, item: &Item) -> (r: bool)
    ensures
        r == crate::item::admits(KeepRule::Extensions(byte_strings_view(allowed@)), item@),
{
    match item.subject() {
        None => true,
        Some(p) => match p.extension() {
            None => false,
            Some(e) => extension_is_allowed(allowed, &e),
        },
    }
}

/// Pulls from `inner` until an item that the extension rule keeps, or its end;
/// nothing beyond the returned item is pulled.
fn pull_allowed<I: ItemSource>(inner: &mut I, allowed: &Vec<Vec<u8>>) -> (r: Option<Item>)
    ensures
        final(inner).remaining() == old(inner).remaining().skip(
            pull_count(old(inner).remaining(), KeepRule::Extensions(byte_strings_view(allowed@)))
                as int,
        ),
        r is None ==> final(inner).remaining().len() == 0,
        extension_kept(old(inner).remaining(), byte_strings_view(allowed@)).len() == 0 ==> r is None
            && extension_kept(final(inner).remaining(), byte_strings_view(allowed@)) == extension_kept(
            old(inner).remaining(),
            byte_strings_view(allowed@),
        ),
        extension_kept(old(inner).remaining(), byte_strings_view(allowed@)).len() > 0 ==> (r matches Some(
            i,
        ) && i@ == extension_kept(old(inner).remaining(), byte_strings_view(allowed@))[0])
            && extension_kept(final(inner).remaining(), byte_strings_view(allowed@)) == extension_kept(
            old(inner).remaining(),
            byte_strings_view(allowed@),
        ).drop_first(),
{
    let ghost a = byte_strings_view(allowed@);
    let ghost start = extension_kept(inner.remaining(), a);
    let ghost up0 = inner.remaining();
    let ghost mut n: int = 0;
    loop
        invariant
            a == byte_strings_view(allowed@),
            up0 == old(inner).remaining(),
            0 <= n <= up0.len(),
            inner.remaining() == up0.skip(n),
            pull_count(up0, KeepRule::Extensions(a)) == n + pull_count(
                inner.remaining(),
                KeepRule::Extensions(a),
            ),
            extension_kept(inner.remaining(), a) == start,
            start == extension_kept(old(inner).remaining(), a),
        decreases inner.remaining().len(),
    {
        let ghost up = inner.remaining();
        match inner.next_item() {
            None => {
                return None;
            },
            Some(item) => {
                assert(up.drop_first() == inner.remaining());
                proof {
                    assert(up0.skip(n + 1) =~= up.drop_first());
                    n = n + 1;
                }
                if extension_allows_item(allowed, &item) {
                    return Some(item);
                }
            },
        }
    }
}

/// Keeps only the items of `inner` whose extension is allowed ("only"
/// semantics: no exclusion mode). Failure items pass untouched.
pub struct ExtensionFilter<I: ItemSource> {
    pub inner: I,
    pub extensions: Vec<Vec<u8>>,
}

/// The bytes of each text.
fn texts_to_bytes(texts: &[&str]) -> (r: Vec<Vec<u8>>)
    ensures
        byte_strings_view(r@) == texts_bytes(texts@),
{
    let mut r: Vec<Vec<u8>> = Vec::new();
    let mut i: usize = 0;
    while i < texts.len()
        invariant
            i <= texts.len(),
            byte_strings_view(r@) == texts_bytes(texts@.subrange(0, i as int)),
        decreases texts.len() - i,
    {
        let b = vstd::slice::slice_to_vec(texts[i].as_bytes());
        let ghost before = r@;
        r.push(b);
        assert(byte_strings_view(r@) =~= texts_bytes(texts@.subrange(0, i + 1))) by {
            assert(byte_strings_view(before.push(b)) =~= byte_strings_view(before).push(b@));
        }
        i = i + 1;
    }
    assert(texts@.subrange(0, i as int) =~= texts@);
    r
}

impl<I: ItemSource> ExtensionFilter<I> {
    /// A filter over `inner` that allows the extensions given as texts.
    pub fn new(inner: I, extensions: &[&str]) -> (r: ExtensionFilter<I>)
        ensures
            r.inner == inner,
            byte_strings_view(r.extensions@) == texts_bytes(extensions@),
            r.remaining() == extension_kept(
                inner.remaining(),
                texts_bytes(extensions@),
            ),
    {
        create_extension_filter(inner, extensions)
    }

    /// Whether `ext` is one of the allowed extensions.
    pub fn is_allowed_extension(&self, ext: &Vec<u8>) -> (r: bool)
        ensures
            r == byte_strings_view(self.extensions@).contains(ext@),
    {
        extension_is_allowed(&self.extensions, ext)
    }

    /// Pulls from the upstream until an item passes, and returns it; `None`
    /// once the upstream has ended. Failure items pass as soon as they are
    /// pulled, and nothing beyond the returned item is pulled.
    pub fn pull(&mut self) -> (r: Option<Item>)
        ensures
            final(self).extensions == old(self).extensions,
            final(self).inner.remaining() == old(self).inner.remaining().skip(
                pull_count(
                    old(self).inner.remaining(),
                    KeepRule::Extensions(byte_strings_view(old(self).extensions@)),
                ) as int,
            ),
            r is None ==> final(self).inner.remaining().len() == 0,
            old(self).remaining().len() == 0 ==> r is None && final(self).remaining() == old(
                self,
            ).remaining(),
            old(self).remaining().len() > 0 ==> (r matches Some(i) && i@ == old(
                self,
            ).remaining()[0]) && final(self).remaining() == old(self).remaining().drop_first(),
    {
        pull_allowed(&mut self.inner, &self.extensions)
    }
}

impl<I: ItemSource> ItemSource for ExtensionFilter<I> {
    open spec fn remaining(&self) -> Seq<ItemView> {
        extension_kept(self.inner.remaining(), byte_strings_view(self.extensions@))
    }

    fn next_item(&mut self) -> (r: Option<Item>) {
        self.pull()
    }
}

/// An [`ExtensionFilter`] over `inner` that allows the extensions given as
/// texts.
pub fn create_extension_filter<I: ItemSource>(inner: I, extensions: &[&str]) -> (r:
    ExtensionFilter<I>)
    ensures
        r.inner == inner,
        byte_strings_view(r.extensions@) == texts_bytes(extensions@),
        r.remaining() == extension_kept(
            inner.remaining(),
            texts_bytes(extensions@),
        ),
{
    ExtensionFilter { inner, extensions: texts_to_bytes(extensions) }
}

/// Keeps only the items of `inner` whose extension is one of `extensions`.
/// Failure items pass untouched.
pub struct AllowExtensions<I: ItemSource> {
    pub inner: I,
    pub extensions: Vec<Vec<u8>>,
}

impl<I: ItemSource> AllowExtensions<I> {
    /// A filter over `inner` that allows `extensions`.
    pub fn new(inner: I, extensions: Vec<Vec<u8>>) -> (r: AllowExtensions<I>)
        ensures
            r.inner == inner,
            r.extensions == extensions,
            r.remaining() == extension_kept(inner.remaining(), byte_strings_view(extensions@)),
    {
        AllowExtensions { inner, extensions }
    }

    /// Pulls from the upstream until an item passes, and returns it; `None`
    /// once the upstream has ended. Failure items pass as soon as they are
    /// pulled, and nothing beyond the returned item is pulled.
    pub fn pull(&mut self) -> (r: Option<Item>)
        ensures
            final(self).extensions == old(self).extensions,
            final(self).inner.remaining() == old(self).inner.remaining().skip(
                pull_count(
                    old(self).inner.remaining(),
                    KeepRule::Extensions(byte_strings_view(old(self).extensions@)),
                ) as int,
            ),
            r is None ==> final(self).inner.remaining().len() == 0,
            old(self).remaining().len() == 0 ==> r is None && final(self).remaining() == old(
                self,
            ).remaining(),
            old(self).remaining().len() > 0 ==> (r matches Some(i) && i@ == old(
                self,
            ).remaining()[0]) && final(self).remaining() == old(self).remaining().drop_first(),
    {
        pull_allowed(&mut self.inner, &self.extensions)
    }
}

impl<I: ItemSource> ItemSource for AllowExtensions<I> {
    open spec fn remaining(&self) -> Seq<ItemView> {
        extension_kept(self.inner.remaining(), byte_strings_view(self.extensions@))
    }

    fn next_item(&mut self) -> (r: Option<Item>) {
        self.pull()
    }
}

/// Adds [`AllowExtensionsExt::only_extensions`] to every item source.
pub trait AllowExtensionsExt: ItemSource + Sized {
    /// The same items, without those whose extension is not one of
    /// `extensions`.
    fn only_extensions(self, extensions: Vec<Vec<u8>>) -> (r: AllowExtensions<Self>)
        ensures
            r.inner == self,
            r.extensions == extensions,
            r.remaining() == extension_kept(self.remaining(), byte_strings_view(extensions@)),
    ;
}

impl<I: ItemSource> AllowExtensionsExt for I {
    fn only_extensions(self, extensions: Vec<Vec<u8>>) -> (r: AllowExtensions<I>) {
        AllowExtensions::new(self, extensions)
    }
}

/// Filtering an already filtered sequence again with the same allowed
/// extensions changes nothing.
pub proof fn lemma_extension_filter_idempotent(s: Seq<ItemView>, allowed: Seq<Seq<u8>>)
    ensures
        extension_kept(extension_kept(s, allowed), allowed) == extension_kept(s, allowed),
{
    lemma_kept_idempotent(s, KeepRule::Extensions(allowed));
}

} // verus!
