//! The instructions that the blog program takes.
use vstd::prelude::*;

verus! {

/// One instruction of the blog program.
#[derive(Debug, Clone)]
pub enum SologInstruction {
    /// Create a post. Accounts: author, post, system program.
    CreatePost { title: Vec<u8>, content: Vec<u8> },
    /// Add a collaborator to a post. Accounts: author, collaborator, post.
    AddCollaborator,
    /// Clap for a post or comment; `data` holds an encoded batch of arena
    /// commands. Accounts: viewer, post or comment, system program.
    Clap { data: Vec<u8> },
    /// Comment on a post. Accounts: author, post, comment, system program.
    AddComment { content: Vec<u8> },
    /// Replace a comment's text. Accounts: author, comment, system program.
    EditComment { content: Vec<u8> },
}

} // verus!
