//! The flag sets of the protocol. Each is a small bit set; bits without a
//! meaning are dropped when a set is read from the wire.

use vstd::prelude::*;

verus! {

/// What a session asks for, sent in `Hello`.
#[derive(Clone, Copy, Debug, PartialEq, Eq, Structural)]
pub struct HelloFlags {
    pub bits: u32,
}

impl HelloFlags {
    /// Every bit that has a meaning.
    pub const ALL: u32 = 0x3f;

    /// The bit of `pull`.
    pub const PULL: u32 = 1;

    /// The bit of `delete`.
    pub const DELETE: u32 = 2;

    /// The bit of `checksum`.
    pub const CHECKSUM: u32 = 4;

    /// The bit of `compression`.
    pub const COMPRESSION: u32 = 8;

    /// The bit of `xattrs`.
    pub const XATTRS: u32 = 16;

    /// The bit of `acls`.
    pub const ACLS: u32 = 32;

    /// Whether only bits with a meaning are set.
    pub open spec fn valid(self) -> bool {
        self.bits & Self::ALL == self.bits
    }

    /// The set with the bits of `bits` that have a meaning.
    pub open spec fn truncated(bits: u32) -> HelloFlags {
        HelloFlags { bits: bits & Self::ALL }
    }

    /// Whether every flag of `other` is in `self`.
    pub open spec fn has(self, other: HelloFlags) -> bool {
        self.bits & other.bits == other.bits
    }

    /// The flags of `self` together with those of `other`.
    pub open spec fn join(self, other: HelloFlags) -> HelloFlags {
        HelloFlags { bits: self.bits | other.bits }
    }

    /// The empty set and each named flag hold only bits with a meaning.
    pub proof fn lemma_named_valid()
        ensures
            (HelloFlags { bits: 0 }).valid(),
            (HelloFlags { bits: 1 }).valid(),
            (HelloFlags { bits: 2 }).valid(),
            (HelloFlags { bits: 4 }).valid(),
            (HelloFlags { bits: 8 }).valid(),
            (HelloFlags { bits: 16 }).valid(),
            (HelloFlags { bits: 32 }).valid(),
    {
        assert(0u32 & 0x3fu32 == 0u32
                && 1u32 & 0x3fu32 == 1u32
                && 2u32 & 0x3fu32 == 2u32
                && 4u32 & 0x3fu32 == 4u32
                && 8u32 & 0x3fu32 == 8u32
                && 16u32 & 0x3fu32 == 16u32
                && 32u32 & 0x3fu32 == 32u32) by (bit_vector);
    }

    /// The set without any flag.
    pub fn empty() -> (r: HelloFlags)
        ensures
            r.bits == 0,
            r.valid(),
    {
        proof {
            Self::lemma_named_valid();
        }
        HelloFlags { bits: 0 }
    }

    /// The client pulls: the server is the source.
    pub fn pull() -> (r: HelloFlags)
        ensures
            r.bits == Self::PULL,
            r.valid(),
    {
        proof {
            Self::lemma_named_valid();
        }
        HelloFlags { bits: Self::PULL }
    }

    /// Paths that only the destination has are deleted.
    pub fn delete() -> (r: HelloFlags)
        ensures
            r.bits == Self::DELETE,
            r.valid(),
    {
        proof {
            Self::lemma_named_valid();
        }
        HelloFlags { bits: Self::DELETE }
    }

    /// Files are compared by checksum.
    pub fn checksum() -> (r: HelloFlags)
        ensures
            r.bits == Self::CHECKSUM,
            r.valid(),
    {
        proof {
            Self::lemma_named_valid();
        }
        HelloFlags { bits: Self::CHECKSUM }
    }

    /// Data may be compressed.
    pub fn compression() -> (r: HelloFlags)
        ensures
            r.bits == Self::COMPRESSION,
            r.valid(),
    {
        proof {
            Self::lemma_named_valid();
        }
        HelloFlags { bits: Self::COMPRESSION }
    }

    /// Extended attributes are transferred.
    pub fn xattrs() -> (r: HelloFlags)
        ensures
            r.bits == Self::XATTRS,
            r.valid(),
    {
        proof {
            Self::lemma_named_valid();
        }
        HelloFlags { bits: Self::XATTRS }
    }

    /// Access control lists are transferred.
    pub fn acls() -> (r: HelloFlags)
        ensures
            r.bits == Self::ACLS,
            r.valid(),
    {
        proof {
            Self::lemma_named_valid();
        }
        HelloFlags { bits: Self::ACLS }
    }

    /// The bits as they go on the wire.
    pub fn bits(&self) -> (r: u32)
        ensures
            r == self.bits,
    {
        self.bits
    }

    /// Keeps the bits that have a meaning and drops the others.
    pub fn from_bits_truncate(bits: u32) -> (r: HelloFlags)
        ensures
            r == Self::truncated(bits),
            r.valid(),
    {
        assert((bits & 0x3fu32) & 0x3fu32 == bits & 0x3fu32) by (bit_vector);
        HelloFlags { bits: bits & Self::ALL }
    }

    /// Whether every flag of `other` is set in `self`.
    pub fn contains(&self, other: HelloFlags) -> (r: bool)
        ensures
            r == self.has(other),
    {
        self.bits & other.bits == other.bits
    }

    /// Whether no flag is set.
    pub fn is_empty(&self) -> (r: bool)
        ensures
            r == (self.bits == 0),
    {
        self.bits == 0
    }

    /// The flags of both sets.
    pub fn union(self, other: HelloFlags) -> (r: HelloFlags)
        ensures
            r == self.join(other),
            self.valid() && other.valid() ==> r.valid(),
            r.has(self),
            r.has(other),
    {
        let a = self.bits;
        let b = other.bits;
        assert((a | b) & a == a && (a | b) & b == b) by (bit_vector);
        assert(a & 0x3fu32 == a && b & 0x3fu32 == b ==> (a | b) & 0x3fu32 == (a | b))
            by (bit_vector);
        HelloFlags { bits: self.bits | other.bits }
    }

    /// Adds the flags of `other` to `self`.
    pub fn insert(&mut self, other: HelloFlags)
        ensures
            *final(self) == old(self).join(other),
            old(self).valid() && other.valid() ==> final(self).valid(),
    {
        *self = self.union(other);
    }
}

impl core::ops::BitOr for HelloFlags {
    type Output = HelloFlags;

    fn bitor(self, rhs: HelloFlags) -> (r: HelloFlags) {
        HelloFlags { bits: self.bits | rhs.bits }
    }
}

impl vstd::std_specs::ops::BitOrSpecImpl for HelloFlags {
    open spec fn obeys_bitor_spec() -> bool {
        true
    }

    open spec fn bitor_req(self, rhs: HelloFlags) -> bool {
        true
    }

    open spec fn bitor_spec(self, rhs: HelloFlags) -> HelloFlags {
        self.join(rhs)
    }
}

/// The kind of a source entry, sent in `FileEntry`.
#[derive(Clone, Copy, Debug, PartialEq, Eq, Structural)]
pub struct FileFlags {
    pub bits: u8,
}

impl FileFlags {
    /// Every bit that has a meaning.
    pub const ALL: u8 = 0x1f;

    /// The bit of `dir`.
    pub const DIR: u8 = 1;

    /// The bit of `symlink`.
    pub const SYMLINK: u8 = 2;

    /// The bit of `hardlink`.
    pub const HARDLINK: u8 = 4;

    /// The bit of `has_xattrs`.
    pub const HAS_XATTRS: u8 = 8;

    /// The bit of `sparse`.
    pub const SPARSE: u8 = 16;

    /// Whether only bits with a meaning are set.
    pub open spec fn valid(self) -> bool {
        self.bits & Self::ALL == self.bits
    }

    /// The set with the bits of `bits` that have a meaning.
    pub open spec fn truncated(bits: u8) -> FileFlags {
        FileFlags { bits: bits & Self::ALL }
    }

    /// Whether every flag of `other` is in `self`.
    pub open spec fn has(self, other: FileFlags) -> bool {
        self.bits & other.bits == other.bits
    }

    /// The flags of `self` together with those of `other`.
    pub open spec fn join(self, other: FileFlags) -> FileFlags {
        FileFlags { bits: self.bits | other.bits }
    }

    /// The empty set and each named flag hold only bits with a meaning.
    pub proof fn lemma_named_valid()
        ensures
            (FileFlags { bits: 0 }).valid(),
            (FileFlags { bits: 1 }).valid(),
            (FileFlags { bits: 2 }).valid(),
            (FileFlags { bits: 4 }).valid(),
            (FileFlags { bits: 8 }).valid(),
            (FileFlags { bits: 16 }).valid(),
    {
        assert(0u8 & 0x1fu8 == 0u8
                && 1u8 & 0x1fu8 == 1u8
                && 2u8 & 0x1fu8 == 2u8
                && 4u8 & 0x1fu8 == 4u8
                && 8u8 & 0x1fu8 == 8u8
                && 16u8 & 0x1fu8 == 16u8) by (bit_vector);
    }

    /// The set without any flag.
    pub fn empty() -> (r: FileFlags)
        ensures
            r.bits == 0,
            r.valid(),
    {
        proof {
            Self::lemma_named_valid();
        }
        FileFlags { bits: 0 }
    }

    /// The entry is a directory.
    pub fn dir() -> (r: FileFlags)
        ensures
            r.bits == Self::DIR,
            r.valid(),
    {
        proof {
            Self::lemma_named_valid();
        }
        FileFlags { bits: Self::DIR }
    }

    /// The entry is a symbolic link; its target follows.
    pub fn symlink() -> (r: FileFlags)
        ensures
            r.bits == Self::SYMLINK,
            r.valid(),
    {
        proof {
            Self::lemma_named_valid();
        }
        FileFlags { bits: Self::SYMLINK }
    }

    /// The entry is a hard link to an earlier entry; that entry's path follows.
    pub fn hardlink() -> (r: FileFlags)
        ensures
            r.bits == Self::HARDLINK,
            r.valid(),
    {
        proof {
            Self::lemma_named_valid();
        }
        FileFlags { bits: Self::HARDLINK }
    }

    /// The entry has extended attributes.
    pub fn has_xattrs() -> (r: FileFlags)
        ensures
            r.bits == Self::HAS_XATTRS,
            r.valid(),
    {
        proof {
            Self::lemma_named_valid();
        }
        FileFlags { bits: Self::HAS_XATTRS }
    }

    /// The file is sparse; a hint only.
    pub fn sparse() -> (r: FileFlags)
        ensures
            r.bits == Self::SPARSE,
            r.valid(),
    {
        proof {
            Self::lemma_named_valid();
        }
        FileFlags { bits: Self::SPARSE }
    }

    /// The bits as they go on the wire.
    pub fn bits(&self) -> (r: u8)
        ensures
            r == self.bits,
    {
        self.bits
    }

    /// Keeps the bits that have a meaning and drops the others.
    pub fn from_bits_truncate(bits: u8) -> (r: FileFlags)
        ensures
            r == Self::truncated(bits),
            r.valid(),
    {
        assert((bits & 0x1fu8) & 0x1fu8 == bits & 0x1fu8) by (bit_vector);
        FileFlags { bits: bits & Self::ALL }
    }

    /// Whether every flag of `other` is set in `self`.
    pub fn contains(&self, other: FileFlags) -> (r: bool)
        ensures
            r == self.has(other),
    {
        self.bits & other.bits == other.bits
    }

    /// Whether no flag is set.
    pub fn is_empty(&self) -> (r: bool)
        ensures
            r == (self.bits == 0),
    {
        self.bits == 0
    }

    /// The flags of both sets.
    pub fn union(self, other: FileFlags) -> (r: FileFlags)
        ensures
            r == self.join(other),
            self.valid() && other.valid() ==> r.valid(),
            r.has(self),
            r.has(other),
    {
        let a = self.bits;
        let b = other.bits;
        assert((a | b) & a == a && (a | b) & b == b) by (bit_vector);
        assert(a & 0x1fu8 == a && b & 0x1fu8 == b ==> (a | b) & 0x1fu8 == (a | b))
            by (bit_vector);
        FileFlags { bits: self.bits | other.bits }
    }

    /// Adds the flags of `other` to `self`.
    pub fn insert(&mut self, other: FileFlags)
        ensures
            *final(self) == old(self).join(other),
            old(self).valid() && other.valid() ==> final(self).valid(),
    {
        *self = self.union(other);
    }
}

impl core::ops::BitOr for FileFlags {
    type Output = FileFlags;

    fn bitor(self, rhs: FileFlags) -> (r: FileFlags) {
        FileFlags { bits: self.bits | rhs.bits }
    }
}

impl vstd::std_specs::ops::BitOrSpecImpl for FileFlags {
    open spec fn obeys_bitor_spec() -> bool {
        true
    }

    open spec fn bitor_req(self, rhs: FileFlags) -> bool {
        true
    }

    open spec fn bitor_spec(self, rhs: FileFlags) -> FileFlags {
        self.join(rhs)
    }
}

impl Default for FileFlags {
    fn default() -> (r: FileFlags)
        ensures
            r.bits == 0,
    {
        FileFlags { bits: 0 }
    }
}

/// What the destination says of one of its entries, sent in `DestFileEntry`.
#[derive(Clone, Copy, Debug, PartialEq, Eq, Structural)]
pub struct DestFileFlags {
    pub bits: u8,
}

impl DestFileFlags {
    /// Every bit that has a meaning.
    pub const ALL: u8 = 0x03;

    /// The bit of `dir`.
    pub const DIR: u8 = 1;

    /// The bit of `has_checksums`.
    pub const HAS_CHECKSUMS: u8 = 2;

    /// Whether only bits with a meaning are set.
    pub open spec fn valid(self) -> bool {
        self.bits & Self::ALL == self.bits
    }

    /// The set with the bits of `bits` that have a meaning.
    pub open spec fn truncated(bits: u8) -> DestFileFlags {
        DestFileFlags { bits: bits & Self::ALL }
    }

    /// Whether every flag of `other` is in `self`.
    pub open spec fn has(self, other: DestFileFlags) -> bool {
        self.bits & other.bits == other.bits
    }

    /// The flags of `self` together with those of `other`.
    pub open spec fn join(self, other: DestFileFlags) -> DestFileFlags {
        DestFileFlags { bits: self.bits | other.bits }
    }

    /// The empty set and each named flag hold only bits with a meaning.
    pub proof fn lemma_named_valid()
        ensures
            (DestFileFlags { bits: 0 }).valid(),
            (DestFileFlags { bits: 1 }).valid(),
            (DestFileFlags { bits: 2 }).valid(),
    {
        assert(0u8 & 0x03u8 == 0u8
                && 1u8 & 0x03u8 == 1u8
                && 2u8 & 0x03u8 == 2u8) by (bit_vector);
    }

    /// The set without any flag.
    pub fn empty() -> (r: DestFileFlags)
        ensures
            r.bits == 0,
            r.valid(),
    {
        proof {
            Self::lemma_named_valid();
        }
        DestFileFlags { bits: 0 }
    }

    /// The entry is a directory.
    pub fn dir() -> (r: DestFileFlags)
        ensures
            r.bits == Self::DIR,
            r.valid(),
    {
        proof {
            Self::lemma_named_valid();
        }
        DestFileFlags { bits: Self::DIR }
    }

    /// A table of block checksums follows.
    pub fn has_checksums() -> (r: DestFileFlags)
        ensures
            r.bits == Self::HAS_CHECKSUMS,
            r.valid(),
    {
        proof {
            Self::lemma_named_valid();
        }
        DestFileFlags { bits: Self::HAS_CHECKSUMS }
    }

    /// The bits as they go on the wire.
    pub fn bits(&self) -> (r: u8)
        ensures
            r == self.bits,
    {
        self.bits
    }

    /// Keeps the bits that have a meaning and drops the others.
    pub fn from_bits_truncate(bits: u8) -> (r: DestFileFlags)
        ensures
            r == Self::truncated(bits),
            r.valid(),
    {
        assert((bits & 0x03u8) & 0x03u8 == bits & 0x03u8) by (bit_vector);
        DestFileFlags { bits: bits & Self::ALL }
    }

    /// Whether every flag of `other` is set in `self`.
    pub fn contains(&self, other: DestFileFlags) -> (r: bool)
        ensures
            r == self.has(other),
    {
        self.bits & other.bits == other.bits
    }

    /// Whether no flag is set.
    pub fn is_empty(&self) -> (r: bool)
        ensures
            r == (self.bits == 0),
    {
        self.bits == 0
    }

    /// The flags of both sets.
    pub fn union(self, other: DestFileFlags) -> (r: DestFileFlags)
        ensures
            r == self.join(other),
            self.valid() && other.valid() ==> r.valid(),
            r.has(self),
            r.has(other),
    {
        let a = self.bits;
        let b = other.bits;
        assert((a | b) & a == a && (a | b) & b == b) by (bit_vector);
        assert(a & 0x03u8 == a && b & 0x03u8 == b ==> (a | b) & 0x03u8 == (a | b))
            by (bit_vector);
        DestFileFlags { bits: self.bits | other.bits }
    }

    /// Adds the flags of `other` to `self`.
    pub fn insert(&mut self, other: DestFileFlags)
        ensures
            *final(self) == old(self).join(other),
            old(self).valid() && other.valid() ==> final(self).valid(),
    {
        *self = self.union(other);
    }
}

impl core::ops::BitOr for DestFileFlags {
    type Output = DestFileFlags;

    fn bitor(self, rhs: DestFileFlags) -> (r: DestFileFlags) {
        DestFileFlags { bits: self.bits | rhs.bits }
    }
}

impl vstd::std_specs::ops::BitOrSpecImpl for DestFileFlags {
    open spec fn obeys_bitor_spec() -> bool {
        true
    }

    open spec fn bitor_req(self, rhs: DestFileFlags) -> bool {
        true
    }

    open spec fn bitor_spec(self, rhs: DestFileFlags) -> DestFileFlags {
        self.join(rhs)
    }
}

impl Default for DestFileFlags {
    fn default() -> (r: DestFileFlags)
        ensures
            r.bits == 0,
    {
        DestFileFlags { bits: 0 }
    }
}

/// How the bytes of a `Data` message are to be read.
#[derive(Clone, Copy, Debug, PartialEq, Eq, Structural)]
pub struct DataFlags {
    pub bits: u8,
}

impl DataFlags {
    /// Every bit that has a meaning.
    pub const ALL: u8 = 0x07;

    /// The bit of `compressed`.
    pub const COMPRESSED: u8 = 1;

    /// The bit of `delta`.
    pub const DELTA: u8 = 2;

    /// The bit of `final_chunk`.
    pub const FINAL: u8 = 4;

    /// Whether only bits with a meaning are set.
    pub open spec fn valid(self) -> bool {
        self.bits & Self::ALL == self.bits
    }

    /// The set with the bits of `bits` that have a meaning.
    pub open spec fn truncated(bits: u8) -> DataFlags {
        DataFlags { bits: bits & Self::ALL }
    }

    /// Whether every flag of `other` is in `self`.
    pub open spec fn has(self, other: DataFlags) -> bool {
        self.bits & other.bits == other.bits
    }

    /// The flags of `self` together with those of `other`.
    pub open spec fn join(self, other: DataFlags) -> DataFlags {
        DataFlags { bits: self.bits | other.bits }
    }

    /// The empty set and each named flag hold only bits with a meaning.
    pub proof fn lemma_named_valid()
        ensures
            (DataFlags { bits: 0 }).valid(),
            (DataFlags { bits: 1 }).valid(),
            (DataFlags { bits: 2 }).valid(),
            (DataFlags { bits: 4 }).valid(),
    {
        assert(0u8 & 0x07u8 == 0u8
                && 1u8 & 0x07u8 == 1u8
                && 2u8 & 0x07u8 == 2u8
                && 4u8 & 0x07u8 == 4u8) by (bit_vector);
    }

    /// The set without any flag.
    pub fn empty() -> (r: DataFlags)
        ensures
            r.bits == 0,
            r.valid(),
    {
        proof {
            Self::lemma_named_valid();
        }
        DataFlags { bits: 0 }
    }

    /// The bytes are compressed.
    pub fn compressed() -> (r: DataFlags)
        ensures
            r.bits == Self::COMPRESSED,
            r.valid(),
    {
        proof {
            Self::lemma_named_valid();
        }
        DataFlags { bits: Self::COMPRESSED }
    }

    /// The bytes are delta operations, not file content.
    pub fn delta() -> (r: DataFlags)
        ensures
            r.bits == Self::DELTA,
            r.valid(),
    {
        proof {
            Self::lemma_named_valid();
        }
        DataFlags { bits: Self::DELTA }
    }

    /// This is the last chunk of the file.
    pub fn final_chunk() -> (r: DataFlags)
        ensures
            r.bits == Self::FINAL,
            r.valid(),
    {
        proof {
            Self::lemma_named_valid();
        }
        DataFlags { bits: Self::FINAL }
    }

    /// The bits as they go on the wire.
    pub fn bits(&self) -> (r: u8)
        ensures
            r == self.bits,
    {
        self.bits
    }

    /// Keeps the bits that have a meaning and drops the others.
    pub fn from_bits_truncate(bits: u8) -> (r: DataFlags)
        ensures
            r == Self::truncated(bits),
            r.valid(),
    {
        assert((bits & 0x07u8) & 0x07u8 == bits & 0x07u8) by (bit_vector);
        DataFlags { bits: bits & Self::ALL }
    }

    /// Whether every flag of `other` is set in `self`.
    pub fn contains(&self, other: DataFlags) -> (r: bool)
        ensures
            r == self.has(other),
    {
        self.bits & other.bits == other.bits
    }

    /// Whether no flag is set.
    pub fn is_empty(&self) -> (r: bool)
        ensures
            r == (self.bits == 0),
    {
        self.bits == 0
    }

    /// The flags of both sets.
    pub fn union(self, other: DataFlags) -> (r: DataFlags)
        ensures
            r == self.join(other),
            self.valid() && other.valid() ==> r.valid(),
            r.has(self),
            r.has(other),
    {
        let a = self.bits;
        let b = other.bits;
        assert((a | b) & a == a && (a | b) & b == b) by (bit_vector);
        assert(a & 0x07u8 == a && b & 0x07u8 == b ==> (a | b) & 0x07u8 == (a | b))
            by (bit_vector);
        DataFlags { bits: self.bits | other.bits }
    }

    /// Adds the flags of `other` to `self`.
    pub fn insert(&mut self, other: DataFlags)
        ensures
            *final(self) == old(self).join(other),
            old(self).valid() && other.valid() ==> final(self).valid(),
    {
        *self = self.union(other);
    }
}

impl core::ops::BitOr for DataFlags {
    type Output = DataFlags;

    fn bitor(self, rhs: DataFlags) -> (r: DataFlags) {
        DataFlags { bits: self.bits | rhs.bits }
    }
}

impl vstd::std_specs::ops::BitOrSpecImpl for DataFlags {
    open spec fn obeys_bitor_spec() -> bool {
        true
    }

    open spec fn bitor_req(self, rhs: DataFlags) -> bool {
        true
    }

    open spec fn bitor_spec(self, rhs: DataFlags) -> DataFlags {
        self.join(rhs)
    }
}

impl Default for DataFlags {
    fn default() -> (r: DataFlags)
        ensures
            r.bits == 0,
    {
        DataFlags { bits: 0 }
    }
}

} // verus!
