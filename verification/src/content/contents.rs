//! The store of content objects.

use vstd::prelude::*;
use super::{Content, ContentId, Layout};

verus! {

/// Looks content up by identifier.
pub open spec fn contents_get(s: Seq<(ContentId, Content)>, id: ContentId) -> Option<Content>
    decreases s.len(),
{
    if s.len() == 0 {
        Option::None
    } else if s.first().0 == id {
        Option::Some(s.first().1)
    } else {
        contents_get(s.drop_first(), id)
    }
}

/// Whether an identifier is taken.
pub open spec fn contents_contains(s: Seq<(ContentId, Content)>, id: ContentId) -> bool {
    contents_get(s, id) is Some
}

/// Holds content objects.
#[derive(Debug)]
pub struct Contents {
    pub(crate) contents: Vec<(ContentId, Content)>,
}

impl Contents {
    /// The stored entries.
    pub closed spec fn model(&self) -> Seq<(ContentId, Content)> {
        self.contents@
    }

    /// Creates an empty store.
    pub fn new() -> (r: Contents)
        ensures
            r.model() == Seq::<(ContentId, Content)>::empty(),
    {
        let r = Contents { contents: Vec::new() };
        proof {
            assert(r.model() =~= Seq::<(ContentId, Content)>::empty());
        }
        r
    }

    /// Whether the store holds the identifier.
    pub fn contains(&self, id: ContentId) -> (r: bool)
        ensures
            r == contents_contains(self.model(), id),
    {
        let mut i: usize = 0;
        proof {
            assert(self.contents@.skip(0) =~= self.contents@);
        }
        while i < self.contents.len()
            invariant
                i <= self.contents@.len(),
                contents_get(self.contents@, id) == contents_get(
                    self.contents@.skip(i as int),
                    id,
                ),
            decreases self.contents@.len() - i,
        {
            proof {
                assert(self.contents@.skip(i as int).first() == self.contents@[i as int]);
                assert(self.contents@.skip(i as int).drop_first() =~= self.contents@.skip(
                    i as int + 1,
                ));
            }
            if self.contents[i].0 == id {
                return true;
            }
            i = i + 1;
        }
        proof {
            assert(self.contents@.skip(self.contents@.len() as int).len() == 0);
        }
        false
    }
}

/// Relies on `rand::random`: draws a uniformly random 16-bit value.  Nothing
/// is promised of the outcome.
#[verifier::external_body]
fn random_content_id() -> ContentId {
    rand::random()
}

/// Generates a fresh content id: random values are drawn and checked, and
/// with persistent bad luck the free identifiers are scanned directly.
pub fn new_content_id(contents: &Contents) -> (r: ContentId)
    requires
        exists|k: ContentId| !contents_contains(contents.model(), k),
    ensures
        !contents_contains(contents.model(), r),
{
    let mut tries: u32 = 64;
    while tries > 0
        invariant
            exists|k: ContentId| !contents_contains(contents.model(), k),
        decreases tries,
    {
        let candidate = random_content_id();
        if !contents.contains(candidate) {
            return candidate;
        }
        tries = tries - 1;
    }
    let mut c: u32 = 0;
    while c < 65536
        invariant
            c <= 65536,
            exists|k: ContentId| !contents_contains(contents.model(), k),
            forall|j: ContentId|
                (j as u32) < c ==> #[trigger] contents_contains(contents.model(), j),
        decreases 65536 - c,
    {
        if !contents.contains(c as u16) {
            return c as u16;
        }
        proof {
            assert(contents_contains(contents.model(), c as u16));
            assert forall|j: ContentId| (j as u32) < c + 1 implies #[trigger] contents_contains(
                contents.model(),
                j,
            ) by {
                if (j as u32) < c {
                } else {
                    assert(j == c as u16);
                }
            }
        }
        c = c + 1;
    }
    proof {
        let k = choose|k: ContentId| !contents_contains(contents.model(), k);
        assert((k as u32) < 65536);
        assert(contents_contains(contents.model(), k));
        assert(false);
    }
    0
}

/// Gets content by id.
pub fn get_content(contents: &Contents, id: ContentId) -> (r: Option<Content>)
    ensures
        r == contents_get(contents.model(), id),
{
    let mut i: usize = 0;
    proof {
        assert(contents.contents@.skip(0) =~= contents.contents@);
    }
    while i < contents.contents.len()
        invariant
            i <= contents.contents@.len(),
            contents_get(contents.contents@, id) == contents_get(
                contents.contents@.skip(i as int),
                id,
            ),
        decreases contents.contents@.len() - i,
    {
        proof {
            assert(contents.contents@.skip(i as int).first() == contents.contents@[i as int]);
            assert(contents.contents@.skip(i as int).drop_first() =~= contents.contents@.skip(
                i as int + 1,
            ));
        }
        if contents.contents[i].0 == id {
            return Option::Some(contents.contents[i].1);
        }
        i = i + 1;
    }
    proof {
        assert(contents.contents@.skip(contents.contents@.len() as int).len() == 0);
    }
    Option::None
}

/// Inserts the content keyed by its own id, returning a replaced entry.
pub fn insert_content(contents: &mut Contents, content: Content) -> (prev: Option<Content>)
    ensures
        contents_contains(final(contents).model(), content.id_spec()),
        (prev is Some) == contents_contains(old(contents).model(), content.id_spec()),
{
    let id = content.get_id();
    let mut i: usize = 0;
    let ghost m0 = contents.contents@;
    proof {
        assert(m0.skip(0) =~= m0);
    }
    while i < contents.contents.len()
        invariant
            i <= contents.contents@.len(),
            contents.contents@ == m0,
            m0 == old(contents).contents@,
            id == content.id_spec(),
            contents_get(m0, id) == contents_get(m0.skip(i as int), id),
        decreases contents.contents@.len() - i,
    {
        proof {
            assert(m0.skip(i as int).first() == m0[i as int]);
            assert(m0.skip(i as int).drop_first() =~= m0.skip(i as int + 1));
        }
        if contents.contents[i].0 == id {
            proof {
                lemma_contents_found(m0, id, i as int);
            }
            let old_pair = contents.contents.remove(i);
            contents.contents.insert(i, (id, content));
            proof {
                lemma_contents_found(contents.contents@, id, i as int);
            }
            return Option::Some(old_pair.1);
        }
        i = i + 1;
    }
    proof {
        assert(m0.skip(m0.len() as int).len() == 0);
    }
    contents.contents.push((id, content));
    proof {
        lemma_contents_found(contents.contents@, id, m0.len() as int);
    }
    Option::None
}

/// An entry whose key stands at a known index is found.
proof fn lemma_contents_found(s: Seq<(ContentId, Content)>, id: ContentId, i: int)
    requires
        0 <= i < s.len(),
        s[i].0 == id,
    ensures
        contents_contains(s, id),
    decreases i,
{
    if s.first().0 != id {
        assert(i > 0);
        assert(s.drop_first()[i - 1] == s[i]);
        lemma_contents_found(s.drop_first(), id, i - 1);
    }
}

} // verus!
