//! The records of the blog program and the rules that change them. An
//! account key is held as its 32 bytes.
use vstd::prelude::*;

verus! {

/// Most collaborators a post can have.
pub const MAX_COLLABORATORS: usize = 3;

/// Longest title a post may have, in bytes.
pub const MAX_TITLE_LEN: usize = 20;

/// Longest content a post may have, in bytes.
pub const MAX_CONTENT_LEN: usize = 233;

/// Why an instruction was refused.
#[derive(Debug, Clone, Copy, PartialEq, Eq, Structural)]
pub enum PostError {
    /// An account did not match what the instruction needs.
    InvalidAccountData,
    /// The instruction's data breaks a rule of the program.
    InvalidInstructionData,
}

/// A post.
#[derive(Debug, Clone)]
pub struct Post {
    pub claps: u8,
    pub comment_count: u8,
    pub collaborators: Vec<[u8; 32]>,
    pub collaborator_count: u8,
    pub author: [u8; 32],
    pub title: Vec<u8>,
    pub content: Vec<u8>,
}

/// A comment on a post.
#[derive(Debug, Clone)]
pub struct Comment {
    pub claps: u8,
    pub order: u8,
    pub author: [u8; 32],
    pub content: Vec<u8>,
}

/// What a program account holds.
#[derive(Debug, Clone)]
pub enum SologData {
    Post(Post),
    Comment(Comment),
}

/// The key that marks an empty collaborator slot: 32 bytes of `0xff`.
pub open spec fn empty_slot() -> Seq<u8> {
    Seq::new(32, |i: int| 0xffu8)
}

impl Post {
    /// Every post has exactly `MAX_COLLABORATORS` slots, of which the first
    /// `collaborator_count` are taken.
    pub open spec fn wf(&self) -> bool {
        &&& self.collaborators@.len() == MAX_COLLABORATORS
        &&& self.collaborator_count <= MAX_COLLABORATORS
    }

    /// The keys of the post's collaborator slots.
    pub open spec fn slots(&self) -> Seq<Seq<u8>> {
        self.collaborators@.map_values(|k: [u8; 32]| k@)
    }
}

/// Whether two keys are equal.
pub fn same_key(a: &[u8; 32], b: &[u8; 32]) -> (r: bool)
    ensures
        r == (a@ == b@),
{
    let mut i: usize = 0;
    while i < 32
        invariant
            i <= 32,
            a@.len() == 32,
            b@.len() == 32,
            forall|k: int| 0 <= k < i ==> a@[k] == b@[k],
        decreases 32 - i,
    {
        if a[i] != b[i] {
            return false;
        }
        i = i + 1;
    }
    assert(a@ =~= b@);
    true
}

/// A new post by `author`, with no claps, comments or collaborators; refused
/// when the title or the content is too long.
pub fn create_post(author: [u8; 32], title: Vec<u8>, content: Vec<u8>) -> (r: Result<Post, PostError>)
    ensures
        title@.len() > MAX_TITLE_LEN || content@.len() > MAX_CONTENT_LEN <==> r is Err,
        r is Err ==> r == Err::<Post, PostError>(PostError::InvalidInstructionData),
        r matches Ok(p) ==> {
            &&& p.wf()
            &&& p.claps == 0 && p.comment_count == 0 && p.collaborator_count == 0
            &&& p.author@ == author@ && p.title@ == title@ && p.content@ == content@
            &&& forall|i: int| 0 <= i < MAX_COLLABORATORS ==> #[trigger] p.slots()[i] == empty_slot()
        },
{
    if title.len() > MAX_TITLE_LEN || content.len() > MAX_CONTENT_LEN {
        return Err(PostError::InvalidInstructionData);
    }
    let empty: [u8; 32] = [0xffu8; 32];
    assert(empty@ =~= empty_slot());
    let mut collaborators: Vec<[u8; 32]> = Vec::new();
    collaborators.push(empty);
    collaborators.push(empty);
    collaborators.push(empty);
    Ok(Post { claps: 0, comment_count: 0, collaborators, collaborator_count: 0, author, title, content })
}

/// Adds `collaborator` to a post of `author`'s: refused when `author` did
/// not write it, when its slots are full, or when a slot already holds that
/// key. The post changes only when the result is `Ok`.
pub fn add_collaborator(post: &mut Post, author: &[u8; 32], collaborator: &[u8; 32]) -> (r: Result<(), PostError>)
    requires
        old(post).wf(),
    ensures
        final(post).wf(),
        old(post).author@ != author@ ==> r == Err::<(), PostError>(PostError::InvalidAccountData),
        old(post).author@ == author@ && old(post).collaborator_count >= MAX_COLLABORATORS ==> r == Err::<
            (),
            PostError,
        >(PostError::InvalidInstructionData),
        old(post).author@ == author@ && old(post).collaborator_count < MAX_COLLABORATORS ==> (r is Err
            <==> old(post).slots().contains(collaborator@)),
        r is Err ==> r == Err::<(), PostError>(PostError::InvalidAccountData) || r == Err::<
            (),
            PostError,
        >(PostError::InvalidInstructionData),
        r is Err ==> *final(post) == *old(post),
        r is Ok ==> {
            &&& final(post).slots() == old(post).slots().update(
                old(post).collaborator_count as int,
                collaborator@,
            )
            &&& final(post).collaborator_count == old(post).collaborator_count + 1
            &&& final(post).claps == old(post).claps
            &&& final(post).comment_count == old(post).comment_count
            &&& final(post).author == old(post).author
            &&& final(post).title == old(post).title
            &&& final(post).content == old(post).content
        },
{
    if !same_key(&post.author, author) {
        return Err(PostError::InvalidAccountData);
    }
    if post.collaborator_count as usize >= MAX_COLLABORATORS {
        return Err(PostError::InvalidInstructionData);
    }
    let mut i: usize = 0;
    while i < post.collaborators.len()
        invariant
            *post == *old(post),
            post.wf(),
            post.author@ == author@,
            post.collaborator_count < MAX_COLLABORATORS,
            i <= post.collaborators@.len(),
            forall|k: int| 0 <= k < i ==> #[trigger] post.collaborators@[k]@ != collaborator@,
        decreases post.collaborators@.len() - i,
    {
        if same_key(&post.collaborators[i], collaborator) {
            assert(post.slots()[i as int] == collaborator@);
            return Err(PostError::InvalidInstructionData);
        }
        i = i + 1;
    }
    assert(!post.slots().contains(collaborator@)) by {
        if post.slots().contains(collaborator@) {
            let k = choose|k: int| 0 <= k < post.slots().len() && post.slots()[k] == collaborator@;
            assert(post.collaborators@[k]@ == collaborator@);
        }
    }
    let slot = post.collaborator_count as usize;
    post.collaborators.set(slot, *collaborator);
    post.collaborator_count = post.collaborator_count + 1;
    assert(post.slots() =~= old(post).slots().update(slot as int, collaborator@));
    Ok(())
}

/// Adds a clap to a post or comment; the count wraps past 255.
pub fn clap(data: &mut SologData)
    ensures
        match (*old(data), *final(data)) {
            (SologData::Post(a), SologData::Post(b)) => b.claps == (a.claps + 1) % 256 && b.comment_count
                == a.comment_count && b.collaborators == a.collaborators && b.collaborator_count
                == a.collaborator_count && b.author == a.author && b.title == a.title && b.content
                == a.content,
            (SologData::Comment(a), SologData::Comment(b)) => b.claps == (a.claps + 1) % 256 && b.order
                == a.order && b.author == a.author && b.content == a.content,
            _ => false,
        },
{
    match data {
        SologData::Post(p) => {
            p.claps = p.claps.wrapping_add(1);
        },
        SologData::Comment(c) => {
            c.claps = c.claps.wrapping_add(1);
        },
    }
}

/// A new comment by `author` on `post`, numbered by the post's comment count,
/// which then grows by one (wrapping past 255).
pub fn add_comment(post: &mut Post, author: [u8; 32], content: Vec<u8>) -> (r: Comment)
    ensures
        r.claps == 0,
        r.order == old(post).comment_count,
        r.author == author,
        r.content == content,
        final(post).comment_count == (old(post).comment_count + 1) % 256,
        final(post).claps == old(post).claps,
        final(post).collaborators == old(post).collaborators,
        final(post).collaborator_count == old(post).collaborator_count,
        final(post).author == old(post).author,
        final(post).title == old(post).title,
        final(post).content == old(post).content,
{
    let order = post.comment_count;
    post.comment_count = post.comment_count.wrapping_add(1);
    Comment { claps: 0, order, author, content }
}

/// Replaces the text of a comment by `author`; refused, with the comment
/// left as it was, when someone else wrote it.
pub fn edit_comment(comment: &mut Comment, author: &[u8; 32], content: Vec<u8>) -> (r: Result<(), PostError>)
    ensures
        r is Ok <==> old(comment).author@ == author@,
        r is Err ==> r == Err::<(), PostError>(PostError::InvalidAccountData) && *final(comment)
            == *old(comment),
        r is Ok ==> final(comment).content == content && final(comment).claps == old(comment).claps
            && final(comment).order == old(comment).order && final(comment).author == old(comment).author,
{
    if !same_key(&comment.author, author) {
        return Err(PostError::InvalidAccountData);
    }
    comment.content = content;
    Ok(())
}

} // verus!
