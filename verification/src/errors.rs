use vstd::prelude::*;

verus! {

/// The ways an entry-store operation can fail.
#[derive(Clone, Copy, Debug, PartialEq, Eq, Structural)]
pub enum StoreError {
    /// The entries directory is missing or cannot be listed; fatal to the
    /// operation that needed its contents.
    DirectoryUnavailable,
    /// A create target already exists, as a file or as an index row; the
    /// existing data is preserved and the caller may pick another name.
    NameCollision,
    /// The tag was already assigned to the entry; ignorable.
    DuplicateAssociation,
    /// The index row was renamed but the file was not; the store is left
    /// inconsistent and the caller must recover by hand.
    PartialRename,
    /// The index cannot be opened, or a statement against it failed; fatal.
    IndexUnavailable,
    /// The named entry has no index row.
    MissingEntry,
    /// The rename target already names an index row; the entry set is
    /// unchanged.
    RenameConflict,
}

} // verus!
