//! Runtime skeleton: an immutable joint hierarchy with rest poses and a
//! bidirectional name/index map, decoded from a versioned binary archive.
//!
//! Joint hierarchy is packed as a flat array of parent indices (16 bits),
//! stored in depth-first order, which is enough to traverse the whole
//! hierarchy without recursion or an explicit stack.

use vstd::prelude::*;
use vstd::utf8::encode_utf8;
use crate::archive::{
    Archive, SRead, senc_i16_seq, senc_i32, senc_soa_seq, senc_string, senc_strings, senc_u32,
    sread_i16_seq, sread_i32, sread_soa_seq, sread_string, sread_strings, sread_u32,
    write_i16_vec, write_i32, write_soa_vec, write_string, write_u32,
};
use crate::base::{OzzError, OzzIndex};
use crate::joint_map::{JointHashMap, bimap_insert, index_injective};
use crate::math::SoaTransform;

verus! {

/// The characters of the skeleton resource tag.
pub open spec fn spec_tag_chars() -> Seq<char> {
    "ozz-skeleton"@
}

/// The supported archive version.
pub open spec fn spec_version_number() -> u32 {
    2
}

/// Metadata decoded from an archive: joint count, names in index order,
/// parent indices, and the stream position just past them.
pub struct SpecMeta {
    /// The joint count read from the stream.
    pub num_joints: i32,
    /// The joint names, in index order.
    pub names: Seq<Seq<char>>,
    /// The parent indices.
    pub parents: Seq<i16>,
    /// The position just past the metadata.
    pub end: int,
}

/// Outcome of decoding skeleton metadata.
pub enum MetaRead {
    /// The decoded metadata.
    Meta(SpecMeta),
    /// The archive's tag is not the skeleton resource tag.
    BadTag,
    /// The archive's version is not the supported version.
    BadVersion,
    /// The stream ended before the metadata was complete.
    Io,
    /// A joint name was not valid UTF-8.
    Utf8,
}

/// A whole decoded skeleton resource.
pub struct SpecSkel {
    /// The joint names, in index order.
    pub names: Seq<Seq<char>>,
    /// The parent indices.
    pub parents: Seq<i16>,
    /// The SoA-packed rest poses.
    pub poses: Seq<SoaTransform>,
    /// The position just past the resource.
    pub end: int,
}

/// Outcome of decoding a whole skeleton resource.
pub enum SkelRead {
    /// The decoded skeleton data.
    Skel(SpecSkel),
    /// The archive's tag is not the skeleton resource tag.
    BadTag,
    /// The archive's version is not the supported version.
    BadVersion,
    /// The stream ended before the resource was complete.
    Io,
    /// A joint name was not valid UTF-8.
    Utf8,
}

/// Decoding skeleton metadata from position `p` of stream `d`, given the
/// archive's tag and version: validate both, read the joint count, and —
/// when joints are wanted and present — a reserved character count, the
/// names and the parent indices. A negative joint count asks for more
/// parent entries than any stream can hold, so it reads as truncated.
pub open spec fn smeta(
    tag: Seq<char>,
    version: u32,
    d: Seq<u8>,
    p: int,
    with_joints: bool,
) -> MetaRead {
    if tag != spec_tag_chars() {
        MetaRead::BadTag
    } else if version != spec_version_number() {
        MetaRead::BadVersion
    } else {
        match sread_i32(d, p) {
            SRead::Val(nj, p1) => if nj == 0 || !with_joints {
                MetaRead::Meta(
                    SpecMeta { num_joints: nj, names: Seq::empty(), parents: Seq::empty(), end: p1 },
                )
            } else {
                match sread_i32(d, p1) {
                    SRead::Val(_, p2) => {
                        let n_names: nat = if nj > 0 {
                            nj as nat
                        } else {
                            0
                        };
                        match sread_strings(d, p2, n_names) {
                            SRead::Val(names, p3) => if nj < 0 {
                                MetaRead::Io
                            } else {
                                match sread_i16_seq(d, p3, nj as nat) {
                                    SRead::Val(parents, p4) => MetaRead::Meta(
                                        SpecMeta { num_joints: nj, names, parents, end: p4 },
                                    ),
                                    _ => MetaRead::Io,
                                }
                            },
                            SRead::Short => MetaRead::Io,
                            SRead::BadText => MetaRead::Utf8,
                        }
                    },
                    _ => MetaRead::Io,
                }
            },
            _ => MetaRead::Io,
        }
    }
}

/// Decoding a whole skeleton resource: the metadata, then one SoA rest-pose
/// record for every started group of four joints.
pub open spec fn sskel(tag: Seq<char>, version: u32, d: Seq<u8>, p: int) -> SkelRead {
    match smeta(tag, version, d, p, true) {
        MetaRead::Meta(m) => {
            let soa_n: nat = if m.num_joints <= 0 {
                0
            } else {
                ((m.num_joints + 3) / 4) as nat
            };
            match sread_soa_seq(d, m.end, soa_n) {
                SRead::Val(poses, p2) => SkelRead::Skel(
                    SpecSkel { names: m.names, parents: m.parents, poses, end: p2 },
                ),
                _ => SkelRead::Io,
            }
        },
        MetaRead::BadTag => SkelRead::BadTag,
        MetaRead::BadVersion => SkelRead::BadVersion,
        MetaRead::Io => SkelRead::Io,
        MetaRead::Utf8 => SkelRead::Utf8,
    }
}

/// Decoding a whole skeleton archive byte stream from the start: the tag
/// string and version word, then the resource.
pub open spec fn sdecode_bytes(d: Seq<u8>) -> SkelRead {
    match sread_string(d, 0) {
        SRead::Val(tag, p1) => match sread_u32(d, p1) {
            SRead::Val(v, p2) => sskel(tag, v, d, p2),
            _ => SkelRead::Io,
        },
        SRead::Short => SkelRead::Io,
        SRead::BadText => SkelRead::Utf8,
    }
}

/// The name/index associations produced by inserting the first `n` names in
/// index order, as construction does.
pub open spec fn pairs_upto(names: Seq<Seq<char>>, n: nat) -> Map<Seq<char>, i16>
    decreases n,
{
    if n == 0 {
        Map::empty()
    } else {
        bimap_insert(pairs_upto(names, (n - 1) as nat), names[n - 1], (n - 1) as i16)
    }
}

/// Reading the remaining names continues what has been read so far.
pub open spec fn sread_strings_cont(
    done: Seq<Seq<char>>,
    d: Seq<u8>,
    p: int,
    m: nat,
) -> SRead<Seq<Seq<char>>> {
    match sread_strings(d, p, m) {
        SRead::Val(ss, e) => SRead::Val(done + ss, e),
        SRead::Short => SRead::Short,
        SRead::BadText => SRead::BadText,
    }
}

/// Consuming one name moves it from the remainder to the prefix.
proof fn lemma_sread_strings_cont_step(
    done: Seq<Seq<char>>,
    d: Seq<u8>,
    p: int,
    m: nat,
    s: Seq<char>,
    q: int,
)
    requires
        m > 0,
        sread_string(d, p) == (SRead::Val(s, q)),
    ensures
        sread_strings_cont(done, d, p, m) == sread_strings_cont(
            done.push(s),
            d,
            q,
            (m - 1) as nat,
        ),
{
    match sread_strings(d, q, (m - 1) as nat) {
        SRead::Val(ss, e) => {
            assert(done + (Seq::<Seq<char>>::empty().push(s) + ss) =~= done.push(s) + ss);
        },
        _ => {},
    }
}

/// The first `n` inserted associations depend only on the first `n` names.
proof fn lemma_pairs_upto_push(done: Seq<Seq<char>>, s: Seq<char>, n: nat)
    requires
        n <= done.len(),
    ensures
        pairs_upto(done.push(s), n) == pairs_upto(done, n),
    decreases n,
{
    if n > 0 {
        lemma_pairs_upto_push(done, s, (n - 1) as nat);
    }
}

/// This runtime skeleton data structure provides const-only access to the
/// joint hierarchy, joint names and rest poses, stored in separate arrays
/// to match the way runtime algorithms use them.
pub struct Skeleton {
    /// SoA-packed rest poses, one record per started group of four joints.
    pub joint_rest_poses: Vec<SoaTransform>,
    /// Parent index of each joint, in depth-first storage order.
    pub joint_parents: Vec<i16>,
    /// Bidirectional joint name/index map.
    pub joint_names: JointHashMap,
}

/// Skeleton metadata read from an archive without the rest poses.
pub struct SkeletonMeta {
    /// The archive version the metadata was read under.
    pub version: u32,
    /// The joint count read from the stream.
    pub num_joints: i32,
    /// Bidirectional joint name/index map.
    pub joint_names: JointHashMap,
    /// Parent index of each joint.
    pub joint_parents: Vec<i16>,
}

impl Skeleton {
    /// `Skeleton` resource file tag for `Archive`.
    pub fn tag() -> (res: &'static str)
        ensures
            res@ == spec_tag_chars(),
    {
        "ozz-skeleton"
    }

    /// `Skeleton` resource file version for `Archive`.
    pub fn version() -> (res: u32)
        ensures
            res == spec_version_number(),
    {
        2
    }

    /// Assembles a skeleton from its parts.
    pub fn from_raw(
        joint_rest_poses: Vec<SoaTransform>,
        joint_parents: Vec<i16>,
        joint_names: JointHashMap,
    ) -> (res: Skeleton)
        ensures
            res.joint_rest_poses@ == joint_rest_poses@,
            res.joint_parents@ == joint_parents@,
            res.joint_names@ == joint_names@,
    {
        Skeleton { joint_rest_poses, joint_parents, joint_names }
    }

    /// Reads a `SkeletonMeta` from an archive: validates the tag and
    /// version, reads the joint count, and, if `with_joints` and the count
    /// is nonzero, the names and parent indices. Returns exactly what the
    /// specification-level decoder [`smeta`] describes; the name map holds
    /// the decoded names inserted in index order.
    #[verifier::loop_isolation(false)]
    pub fn read_meta(archive: &mut Archive, with_joints: bool) -> (res: Result<
        SkeletonMeta,
        OzzError,
    >)
        requires
            old(archive).wf(),
        ensures
            final(archive).wf(),
            final(archive).spec_data() == old(archive).spec_data(),
            final(archive).spec_tag() == old(archive).spec_tag(),
            final(archive).spec_version() == old(archive).spec_version(),
            (match smeta(
                old(archive).spec_tag(),
                old(archive).spec_version(),
                old(archive).spec_data(),
                old(archive).spec_pos(),
                with_joints,
            ) {
                MetaRead::Meta(m) => res matches Ok(meta) && meta.version
                    == spec_version_number() && meta.num_joints == m.num_joints
                    && meta.joint_parents@ == m.parents && meta.joint_names@ == pairs_upto(
                    m.names,
                    m.names.len(),
                ) && final(archive).spec_pos() == m.end,
                MetaRead::BadTag => res matches Err(e) && e is InvalidTag,
                MetaRead::BadVersion => res matches Err(e) && e is InvalidVersion,
                MetaRead::Io => res matches Err(e) && e is IO,
                MetaRead::Utf8 => res matches Err(e) && e is Utf8,
            }),
    {
        let expected_tag = Skeleton::tag().to_owned();
        if *archive.tag() != expected_tag {
            return Err(OzzError::InvalidTag);
        }
        if archive.version() != Skeleton::version() {
            return Err(OzzError::InvalidVersion);
        }

        let num_joints = archive.read_i32()?;
        if num_joints == 0 || !with_joints {
            return Ok(
                SkeletonMeta {
                    version: Skeleton::version(),
                    num_joints,
                    joint_names: JointHashMap::with_capacity(0),
                    joint_parents: Vec::new(),
                },
            );
        }

        let _char_count = archive.read_i32()?;

        let ghost d = archive.spec_data();
        let ghost p2 = archive.spec_pos();
        let n: usize = if num_joints > 0 {
            num_joints as usize
        } else {
            0
        };
        let mut joint_names = JointHashMap::with_capacity(n);
        let ghost mut done: Seq<Seq<char>> = Seq::empty();
        let mut idx: usize = 0;
        while idx < n
            invariant
                idx <= n,
                archive.wf(),
                archive.spec_data() == d,
                archive.spec_tag() == old(archive).spec_tag(),
                archive.spec_version() == old(archive).spec_version(),
                done.len() == idx,
                joint_names@ == pairs_upto(done, idx as nat),
                sread_strings(d, p2, n as nat) == sread_strings_cont(
                    done,
                    d,
                    archive.spec_pos(),
                    (n - idx) as nat,
                ),
            decreases n - idx,
        {
            let ghost cur = archive.spec_pos();
            let name = match archive.read_string() {
                Ok(name) => name,
                Err(e) => {
                    proof {
                        let m = (n - idx) as nat;
                        if sread_string(d, cur) is Short {
                            assert(sread_strings(d, cur, m) == SRead::<Seq<Seq<char>>>::Short);
                        } else {
                            assert(sread_strings(d, cur, m) == SRead::<Seq<Seq<char>>>::BadText);
                        }
                    }
                    return Err(e);
                },
            };
            proof {
                let s = match sread_string(d, cur) {
                    SRead::Val(s, q) => s,
                    _ => arbitrary(),
                };
                let q = match sread_string(d, cur) {
                    SRead::Val(s, q) => q,
                    _ => arbitrary(),
                };
                lemma_sread_strings_cont_step(done, d, cur, (n - idx) as nat, s, q);
                lemma_pairs_upto_push(done, s, idx as nat);
                done = done.push(name@);
            }
            joint_names.insert(name, #[verifier::truncate] (idx as i16));
            idx = idx + 1;
        }

        if num_joints < 0 {
            return Err(OzzError::IO("unexpected end of archive".to_owned()));
        }
        let joint_parents = archive.read_i16_vec(num_joints as usize)?;

        Ok(
            SkeletonMeta {
                version: Skeleton::version(),
                num_joints,
                joint_names,
                joint_parents,
            },
        )
    }

    /// Reads a whole `Skeleton` from an archive: the metadata, then one
    /// SoA rest-pose record per started group of four joints. Returns
    /// exactly what the specification-level decoder [`sskel`] describes; no
    /// partially decoded skeleton is ever returned.
    #[verifier::loop_isolation(false)]
    pub fn from_archive(archive: &mut Archive) -> (res: Result<Skeleton, OzzError>)
        requires
            old(archive).wf(),
        ensures
            final(archive).wf(),
            final(archive).spec_data() == old(archive).spec_data(),
            (match sskel(
                old(archive).spec_tag(),
                old(archive).spec_version(),
                old(archive).spec_data(),
                old(archive).spec_pos(),
            ) {
                SkelRead::Skel(sd) => res matches Ok(sk) && sk.joint_parents@ == sd.parents
                    && sk.joint_rest_poses@ == sd.poses && sk.joint_names@ == pairs_upto(
                    sd.names,
                    sd.names.len(),
                ) && final(archive).spec_pos() == sd.end,
                SkelRead::BadTag => res matches Err(e) && e is InvalidTag,
                SkelRead::BadVersion => res matches Err(e) && e is InvalidVersion,
                SkelRead::Io => res matches Err(e) && e is IO,
                SkelRead::Utf8 => res matches Err(e) && e is Utf8,
            }),
    {
        let ghost d = old(archive).spec_data();
        let meta = Skeleton::read_meta(archive, true)?;

        let soa_num_joints: usize = if meta.num_joints <= 0 {
            0
        } else {
            ((meta.num_joints as usize) + 3) / 4
        };
        let ghost pstart = archive.spec_pos();
        let mut joint_rest_poses: Vec<SoaTransform> = Vec::new();
        let mut i: usize = 0;
        while i < soa_num_joints
            invariant
                i <= soa_num_joints,
                archive.wf(),
                archive.spec_data() == d,
                archive.spec_pos() == pstart + 160 * i,
                joint_rest_poses@.len() == i,
                forall|k: int|
                    0 <= k < i ==> joint_rest_poses@[k] == crate::archive::soa_at(
                        d,
                        pstart + 160 * k,
                    ),
            decreases soa_num_joints - i,
        {
            let ghost cur = archive.spec_pos();
            let t = match archive.read_soa_transform() {
                Ok(t) => t,
                Err(e) => {
                    proof {
                        assert(cur + 160 > d.len());
                        assert(160 * i + 160 <= 160 * (soa_num_joints as int)) by (nonlinear_arith)
                            requires
                                i < soa_num_joints,
                        ;
                        assert(pstart + 160 * (soa_num_joints as nat) > d.len());
                    }
                    return Err(e);
                },
            };
            joint_rest_poses.push(t);
            i = i + 1;
        }
        proof {
            if soa_num_joints > 0 {
                assert(pstart + 160 * (soa_num_joints as nat) <= d.len()) by {
                    assert(archive.spec_pos() == pstart + 160 * (soa_num_joints as nat));
                }
            }
            let target = Seq::new(
                soa_num_joints as nat,
                |k: int| crate::archive::soa_at(d, pstart + 160 * k),
            );
            assert(joint_rest_poses@ =~= target);
        }

        Ok(
            Skeleton {
                joint_rest_poses,
                joint_parents: meta.joint_parents,
                joint_names: meta.joint_names,
            },
        )
    }
}

/// The depth-first/pre-order storage invariant: every joint's parent
/// precedes it in storage order, with the root sentinel before joint 0.
pub open spec fn is_preorder(parents: Seq<i16>) -> bool {
    forall|i: int| 0 <= i < parents.len() ==> -1 <= #[trigger] parents[i] < i
}

/// The first index at or after `i` that leaves the subtree rooted at
/// `from`: its parent index falls below `from`, or storage ends.
pub open spec fn subtree_end(parents: Seq<i16>, from: int, i: int) -> int
    recommends
        0 <= i <= parents.len(),
    decreases parents.len() - i,
{
    if i < 0 || i >= parents.len() {
        parents.len() as int
    } else if parents[i] < from {
        i
    } else {
        subtree_end(parents, from, i + 1)
    }
}

/// `subtree_end` is the first stopping point: every index before it stays
/// in the subtree and it stops the walk itself.
proof fn lemma_subtree_end_eq(parents: Seq<i16>, from: int, a: int, e: int)
    requires
        0 <= a <= e <= parents.len(),
        forall|j: int| a <= j < e ==> #[trigger] parents[j] >= from,
        e == parents.len() || parents[e] < from,
    ensures
        subtree_end(parents, from, a) == e,
    decreases e - a,
{
    if a < e {
        lemma_subtree_end_eq(parents, from, a + 1, e);
    }
}

/// Started at the root, a depth-first walk leaves the subtree only at the
/// end of storage: under the pre-order invariant every parent index is at
/// least the root sentinel, so the walk from the root visits every joint
/// exactly once, in increasing index order.
pub proof fn lemma_depth_first_root_total(parents: Seq<i16>, from: int)
    requires
        from < 0,
        is_preorder(parents),
    ensures
        subtree_end(parents, from, 1) == parents.len(),
{
    assert forall|j: int| 1 <= j < parents.len() implies parents[j] >= from by {
        assert(-1 <= parents[j]);
    }
    lemma_subtree_end_eq(parents, from, if parents.len() == 0 { 0 } else { 1 }, parents.len() as int);
}

/// In reverse depth-first order every child is visited before its parent:
/// under the pre-order invariant, joint `j` stands at position
/// `len - 1 - j`, and its parent's position comes strictly later.
pub proof fn lemma_reverse_visits_child_before_parent(parents: Seq<i16>, j: int)
    requires
        is_preorder(parents),
        0 <= j < parents.len(),
        parents[j] >= 0,
    ensures
        parents.len() - 1 - j < parents.len() - 1 - parents[j],
{
}

/// Decoding neither repairs nor breaks the pre-order invariant: the
/// constructed hierarchy satisfies it exactly when the archive's parent
/// data does. Construction from a conforming archive therefore satisfies
/// it, while a fuzzed archive still decodes and merely fails the
/// invariant that traversal relies on.
pub proof fn lemma_decode_preorder_iff_archive_preorder(
    tag: Seq<char>,
    version: u32,
    d: Seq<u8>,
    p: int,
    sk: Skeleton,
)
    requires
        sskel(tag, version, d, p) matches SkelRead::Skel(sd) && sk.joint_parents@ == sd.parents,
    ensures
        is_preorder(sk.joint_parents@) <==> (sskel(tag, version, d, p) matches SkelRead::Skel(sd)
            && is_preorder(sd.parents)),
{
}

impl Skeleton {
    /// Gets the number of joints.
    pub fn num_joints(&self) -> (res: usize)
        ensures
            res == self.joint_parents@.len(),
    {
        self.joint_parents.len()
    }

    /// Gets the number of joints aligned to the SoA group size of four.
    pub fn num_aligned_joints(&self) -> (res: usize)
        requires
            self.joint_parents@.len() + 3 <= usize::MAX,
        ensures
            res == ((self.joint_parents@.len() + 3) / 4) * 4,
    {
        ((self.joint_parents.len() + 3) / 4) * 4
    }

    /// Gets the number of SoA elements matching the number of joints.
    /// This value is useful to allocate SoA runtime data structures.
    pub fn num_soa_joints(&self) -> (res: usize)
        requires
            self.joint_parents@.len() + 3 <= usize::MAX,
        ensures
            res == (self.joint_parents@.len() + 3) / 4,
    {
        (self.joint_parents.len() + 3) / 4
    }

    /// Gets the joints' rest poses, in SoA format.
    pub fn joint_rest_poses(&self) -> (res: &[SoaTransform])
        ensures
            res@ == self.joint_rest_poses@,
    {
        self.joint_rest_poses.as_slice()
    }

    /// Gets the joints' parent indices.
    pub fn joint_parents(&self) -> (res: &[i16])
        ensures
            res@ == self.joint_parents@,
    {
        self.joint_parents.as_slice()
    }

    /// Gets a joint's parent by index.
    pub fn joint_parent<I: OzzIndex>(&self, idx: I) -> (res: i16)
        requires
            0 <= idx.spec_index() < self.joint_parents@.len(),
        ensures
            res == self.joint_parents@[idx.spec_index()],
    {
        let nj = self.joint_parents.len();
        self.joint_parents[idx.usize()]
    }

    /// Gets the joint name/index map.
    pub fn joint_names(&self) -> (res: &JointHashMap)
        ensures
            res@ == self.joint_names@,
    {
        &self.joint_names
    }

    /// Gets a joint's index by name.
    pub fn joint_by_name(&self, name: &str) -> (res: Option<i16>)
        ensures
            res == (if self.joint_names@.contains_key(name@) {
                Some(self.joint_names@[name@])
            } else {
                None::<i16>
            }),
    {
        self.joint_names.get_by_left(name)
    }

    /// Gets a joint's name by index.
    pub fn name_by_joint(&self, index: i16) -> (res: Option<&str>)
        ensures
            (res matches Some(name) ==> self.joint_names@.contains_key(name@)
                && self.joint_names@[name@] == index),
            (res is None ==> forall|k: Seq<char>|
                self.joint_names@.contains_key(k) ==> self.joint_names@[k] != index),
    {
        match self.joint_names.get_by_right(index) {
            Some(name) => Some(name.as_str()),
            None => None,
        }
    }

    /// Tests if a joint is a leaf: it is the last joint in storage, or the
    /// next stored joint's parent is not this joint. This relies on the
    /// depth-first storage invariant, under which a joint's children stand
    /// contiguously right after it.
    pub fn is_leaf<I: OzzIndex>(&self, joint: I) -> (res: bool)
        requires
            0 <= joint.spec_index() < self.joint_parents@.len(),
            self.joint_parents@.len() <= i32::MAX,
        ensures
            res == (joint.spec_index() + 1 == self.joint_parents@.len()
                || self.joint_parents@[joint.spec_index() + 1] != joint.spec_index()),
    {
        let next = joint.usize() + 1;
        next == self.num_joints() || (self.joint_parents()[next] as i32 != joint.i32())
    }

    /// Walks the joint hierarchy in depth-first order, starting at `from`
    /// (or the root if `from` is negative), and returns the visited
    /// `(joint, parent)` pairs in visit order. The walk moves forward
    /// through storage while still inside the subtree rooted at `from`,
    /// which is sound because storage order is a depth-first linearization.
    #[verifier::loop_isolation(false)]
    pub fn iter_depth_first<I: OzzIndex>(&self, from: I) -> (res: Vec<(i16, i16)>)
        requires
            i32::MIN <= from.spec_index() <= i32::MAX,
            self.joint_parents@.len() <= i16::MAX,
        ensures
            ({
                let parents = self.joint_parents@;
                let f = from.spec_index();
                let start: int = if f < 0 {
                    0
                } else {
                    f
                };
                if start >= parents.len() {
                    res@.len() == 0
                } else {
                    let e = subtree_end(parents, f, start + 1);
                    res@.len() == e - start && (forall|k: int|
                        0 <= k < res@.len() ==> res@[k] == (((start + k) as i16), parents[start
                            + k]))
                }
            }),
    {
        let ghost parents = self.joint_parents@;
        let ghost f = from.spec_index();
        let from_i32 = from.i32();
        let nj = self.num_joints();
        let mut res: Vec<(i16, i16)> = Vec::new();
        let mut i: usize = if from_i32 < 0 {
            0
        } else {
            from.usize()
        };
        let ghost start = i as int;
        let mut process = i < nj;
        while process
            invariant
                start <= i,
                i <= nj || i == start,
                res@.len() == i - start,
                forall|k: int|
                    0 <= k < res@.len() ==> res@[k] == (((start + k) as i16), parents[start + k]),
                forall|j: int| start + 1 <= j < i ==> #[trigger] parents[j] >= f,
                process == (i < nj && (i == start || parents[i as int] >= f)),
            decreases nj - i,
        {
            res.push((i as i16, self.joint_parent(i)));
            i = i + 1;
            process = i < nj && (self.joint_parent(i) as i32 >= from_i32);
        }
        proof {
            if start < nj {
                assert(i > start);
                lemma_subtree_end_eq(parents, f, start + 1, i as int);
            }
        }
        res
    }

    /// Walks the joint hierarchy in reverse depth-first order and returns
    /// the visited `(joint, parent)` pairs in visit order: every joint
    /// exactly once, in decreasing index order, so every child is visited
    /// before its parent.
    #[verifier::loop_isolation(false)]
    pub fn iter_depth_first_reverse(&self) -> (res: Vec<(i16, i16)>)
        requires
            self.joint_parents@.len() <= i16::MAX,
        ensures
            res@.len() == self.joint_parents@.len(),
            forall|k: int|
                0 <= k < res@.len() ==> res@[k] == (((self.joint_parents@.len() - 1 - k) as i16),
                    self.joint_parents@[self.joint_parents@.len() - 1 - k]),
    {
        let ghost parents = self.joint_parents@;
        let nj = self.num_joints();
        let mut res: Vec<(i16, i16)> = Vec::new();
        let mut i: usize = nj;
        while i > 0
            invariant
                i <= nj,
                res@.len() == nj - i,
                forall|k: int|
                    0 <= k < res@.len() ==> res@[k] == (((nj - 1 - k) as i16), parents[nj - 1 - k]),
            decreases i,
        {
            i = i - 1;
            let parent = self.joint_parent(i);
            res.push((i as i16, parent));
        }
        res
    }
}

impl Default for Skeleton {
    /// An empty skeleton: no joints, no names, no rest poses.
    fn default() -> (res: Skeleton)
        ensures
            res.joint_rest_poses@.len() == 0,
            res.joint_parents@.len() == 0,
            res.joint_names@ == (Map::<Seq<char>, i16>::empty()),
    {
        Skeleton {
            joint_rest_poses: Vec::new(),
            joint_parents: Vec::new(),
            joint_names: JointHashMap::with_capacity(0),
        }
    }
}

/// Some name maps to joint index `i`.
pub open spec fn has_name(pairs: Map<Seq<char>, i16>, i: int) -> bool {
    exists|k: Seq<char>| #[trigger] pairs.contains_key(k) && pairs[k] == i as i16
}

/// The name chosen for joint `i`: the key the name map associates with it.
pub open spec fn spec_name_of(pairs: Map<Seq<char>, i16>, i: i16) -> Seq<char> {
    choose|k: Seq<char>| pairs.contains_key(k) && pairs[k] == i
}

/// The names of joints `0 .. n`, in index order.
pub open spec fn names_of(pairs: Map<Seq<char>, i16>, n: nat) -> Seq<Seq<char>> {
    Seq::new(n, |k: int| spec_name_of(pairs, k as i16))
}

/// The associations restricted to joint indices below `n`.
pub open spec fn pairs_below(pairs: Map<Seq<char>, i16>, n: int) -> Map<Seq<char>, i16> {
    Map::new(|k: Seq<char>| pairs.contains_key(k) && pairs[k] < n, |k: Seq<char>| pairs[k])
}

/// Inserting the names of an injective, complete, index-bounded map in
/// index order rebuilds the map.
proof fn lemma_pairs_upto_names_of(pairs: Map<Seq<char>, i16>, nj: int, n: int)
    requires
        0 <= n <= nj <= i16::MAX,
        index_injective(pairs),
        forall|k: Seq<char>| pairs.contains_key(k) ==> 0 <= #[trigger] pairs[k] < nj,
        forall|i: int| 0 <= i < nj ==> #[trigger] has_name(pairs, i),
    ensures
        pairs_upto(names_of(pairs, nj as nat), n as nat) == pairs_below(pairs, n),
    decreases n,
{
    if n == 0 {
        assert(pairs_upto(names_of(pairs, nj as nat), 0) =~= pairs_below(pairs, 0));
    } else {
        lemma_pairs_upto_names_of(pairs, nj, n - 1);
        let c = spec_name_of(pairs, (n - 1) as i16);
        assert(has_name(pairs, n - 1));
        assert(exists|k: Seq<char>| #[trigger] pairs.contains_key(k) && pairs[k] == (n - 1) as i16);
        assert(pairs.contains_key(c) && pairs[c] == (n - 1) as i16);
        assert(names_of(pairs, nj as nat)[n - 1] == c);
        assert(bimap_insert(pairs_below(pairs, n - 1), c, (n - 1) as i16) =~= pairs_below(
            pairs,
            n,
        ));
    }
}

/// The resource tag encodes to twelve UTF-8 bytes.
proof fn lemma_tag_utf8_len()
    ensures
        encode_utf8(spec_tag_chars()).len() == 12,
{
    reveal_strlit("ozz-skeleton");
    assert(spec_tag_chars().len() == 12);
    assert(vstd::utf8::is_ascii_chars(spec_tag_chars())) by {
        assert forall|i: int| 0 <= i < spec_tag_chars().len() implies '\0'
            <= #[trigger] spec_tag_chars()[i] <= '\u{7f}' by {
            if i == 0 {
                assert(spec_tag_chars()[0] == 'o');
            } else if i == 1 {
                assert(spec_tag_chars()[1] == 'z');
            } else if i == 2 {
                assert(spec_tag_chars()[2] == 'z');
            } else if i == 3 {
                assert(spec_tag_chars()[3] == '-');
            } else if i == 4 {
                assert(spec_tag_chars()[4] == 's');
            } else if i == 5 {
                assert(spec_tag_chars()[5] == 'k');
            } else if i == 6 {
                assert(spec_tag_chars()[6] == 'e');
            } else if i == 7 {
                assert(spec_tag_chars()[7] == 'l');
            } else if i == 8 {
                assert(spec_tag_chars()[8] == 'e');
            } else if i == 9 {
                assert(spec_tag_chars()[9] == 't');
            } else if i == 10 {
                assert(spec_tag_chars()[10] == 'o');
            } else {
                assert(spec_tag_chars()[11] == 'n');
            }
        }
    }
    vstd::utf8::is_ascii_chars_encode_utf8(spec_tag_chars());
}

impl Skeleton {
    /// Structural consistency: the SoA rest-pose count matches the joint
    /// count, and the name map is an injective map into the joint range.
    pub open spec fn wf(&self) -> bool {
        &&& self.joint_parents@.len() <= i16::MAX
        &&& self.joint_rest_poses@.len() as int == (if self.joint_parents@.len() == 0 {
            0int
        } else {
            (self.joint_parents@.len() as int + 3) / 4
        })
        &&& self.joint_names@.dom().finite()
        &&& index_injective(self.joint_names@)
        &&& (forall|k: Seq<char>|
            self.joint_names@.contains_key(k) ==> 0 <= #[trigger] self.joint_names@[k]
                < self.joint_parents@.len())
    }

    /// Every joint index has a name.
    pub open spec fn names_complete(&self) -> bool {
        forall|i: int| 0 <= i < self.joint_parents@.len() ==> #[trigger] has_name(
            self.joint_names@,
            i,
        )
    }

    /// Every name's UTF-8 encoding fits a u32 length prefix.
    pub open spec fn names_encodable(&self) -> bool {
        forall|k: Seq<char>|
            self.joint_names@.contains_key(k) ==> #[trigger] encode_utf8(k).len() <= u32::MAX
    }

    /// The skeleton can be written out as an archive.
    pub open spec fn encodable(&self) -> bool {
        self.wf() && self.names_complete() && self.names_encodable()
    }

    /// The archive byte stream this skeleton encodes to: tag, version,
    /// joint count, and — when joints are present — a zero character
    /// count, the names in index order, the parent indices and the SoA
    /// rest poses.
    pub open spec fn spec_encode(&self) -> Seq<u8> {
        let nj = self.joint_parents@.len() as int;
        senc_string(spec_tag_chars()) + senc_u32(spec_version_number()) + senc_i32(nj as i32) + (
        if nj == 0 {
            Seq::<u8>::empty()
        } else {
            senc_i32(0) + senc_strings(names_of(self.joint_names@, nj as nat)) + senc_i16_seq(
                self.joint_parents@,
            ) + senc_soa_seq(self.joint_rest_poses@)
        })
    }

    /// Writes the skeleton as an archive byte stream. The reserved
    /// character-count field is written as zero; the decoder discards it.
    #[verifier::loop_isolation(false)]
    pub fn to_archive(&self) -> (res: Vec<u8>)
        requires
            self.encodable(),
        ensures
            res@ == self.spec_encode(),
    {
        proof {
            lemma_tag_utf8_len();
        }
        let mut out: Vec<u8> = Vec::new();
        write_string(&mut out, Skeleton::tag());
        write_u32(&mut out, Skeleton::version());
        let nj = self.joint_parents.len();
        write_i32(&mut out, nj as i32);
        if nj == 0 {
            proof {
                assert(out@ =~= self.spec_encode());
            }
            return out;
        }
        write_i32(&mut out, 0);

        let ghost pairs = self.joint_names@;
        let ghost prefix = out@;
        let mut i: usize = 0;
        while i < nj
            invariant
                i <= nj,
                out@ == prefix + senc_strings(names_of(pairs, i as nat)),
            decreases nj - i,
        {
            match self.joint_names.get_by_right(i as i16) {
                Some(name) => {
                    proof {
                        let c = spec_name_of(pairs, i as i16);
                        assert(pairs.contains_key(name@) && pairs[name@] == i as i16);
                        assert(pairs.contains_key(c) && pairs[c] == i as i16);
                        assert(c == name@);
                        assert(names_of(pairs, (i + 1) as nat) =~= names_of(
                            pairs,
                            i as nat,
                        ).push(c));
                        crate::archive::lemma_senc_strings_snoc(names_of(pairs, i as nat), c);
                    }
                    write_string(&mut out, name.as_str());
                    proof {
                        assert(out@ =~= prefix + senc_strings(names_of(pairs, (i + 1) as nat)));
                    }
                },
                None => {
                    proof {
                        assert(has_name(pairs, i as int));
                        assert(exists|k: Seq<char>|
                            #[trigger] pairs.contains_key(k) && pairs[k] == i as i16);
                        assert(false);
                    }
                },
            }
            i = i + 1;
        }
        write_i16_vec(&mut out, &self.joint_parents);
        write_soa_vec(&mut out, &self.joint_rest_poses);
        proof {
            assert(out@ =~= self.spec_encode());
        }
        out
    }
}

/// Round trip: a well-formed skeleton's archive encoding decodes back to
/// the very same joint parents, rest poses and name associations, with the
/// whole stream consumed. Together with the exact decoding contracts of
/// [`Skeleton::from_archive`], this says that decoding, re-encoding and
/// re-decoding any valid archive reproduces identical skeleton data.
pub proof fn lemma_archive_round_trip(sk: Skeleton)
    requires
        sk.encodable(),
    ensures
        ({
            let d = sk.spec_encode();
            &&& sdecode_bytes(d) matches SkelRead::Skel(sd)
            &&& (sdecode_bytes(d) matches SkelRead::Skel(sd) ==> sd.parents == sk.joint_parents@
                && sd.poses == sk.joint_rest_poses@ && sd.names == names_of(
                sk.joint_names@,
                sk.joint_parents@.len() as nat,
            ) && pairs_upto(sd.names, sd.names.len()) == sk.joint_names@ && sd.end == d.len())
        }),
{
    let d = sk.spec_encode();
    let pairs = sk.joint_names@;
    let nj = sk.joint_parents@.len() as int;
    let tagc = spec_tag_chars();
    let tb = senc_string(tagc);
    lemma_tag_utf8_len();
    crate::archive::lemma_senc_string_len(tagc);
    crate::archive::lemma_u32_round(spec_version_number());
    crate::archive::lemma_u32_round(nj as i32 as u32);

    assert(d.subrange(0, 16) =~= tb);
    crate::archive::lemma_sread_string_enc(d, 0, tagc);
    assert(d.subrange(16, 20) =~= senc_u32(spec_version_number()));
    crate::archive::lemma_sread_u32_enc(d, 16, spec_version_number());
    assert(d.subrange(20, 24) =~= senc_i32(nj as i32));
    crate::archive::lemma_sread_i32_enc(d, 20, nj as i32);

    if nj == 0 {
        assert(d.len() == 24);
        assert(Seq::new(0, |k: int| crate::archive::soa_at(d, 24 + 160 * k))
            =~= Seq::<SoaTransform>::empty());
        assert(sread_soa_seq(d, 24, 0) == (SRead::Val(Seq::<SoaTransform>::empty(), 24)));
        assert(sk.joint_parents@ =~= Seq::<i16>::empty());
        assert(sk.joint_rest_poses@ =~= Seq::<SoaTransform>::empty());
        assert(names_of(pairs, 0) =~= Seq::<Seq<char>>::empty());
        assert forall|k: Seq<char>| !pairs.contains_key(k) by {
            if pairs.contains_key(k) {
                assert(0 <= sk.joint_names@[k] < sk.joint_parents@.len());
                assert(false);
            }
        }
        assert(pairs_upto(Seq::<Seq<char>>::empty(), 0) =~= pairs);
    } else {
        crate::archive::lemma_u32_round(0u32);
        let ns = names_of(pairs, nj as nat);
        let sb = senc_strings(ns);
        let pb = senc_i16_seq(sk.joint_parents@);
        let ob = senc_soa_seq(sk.joint_rest_poses@);
        crate::archive::lemma_senc_i16_seq_len(sk.joint_parents@);
        crate::archive::lemma_senc_soa_seq_len(sk.joint_rest_poses@);

        assert(d.subrange(24, 28) =~= senc_i32(0));
        crate::archive::lemma_sread_i32_enc(d, 24, 0);

        assert forall|i: int| 0 <= i < ns.len() implies pairs.contains_key(#[trigger] ns[i])
            && pairs[ns[i]] == i as i16 by {
            assert(has_name(pairs, i));
            assert(exists|k: Seq<char>| #[trigger] pairs.contains_key(k) && pairs[k] == i as i16);
        }
        assert(forall|i: int|
            0 <= i < ns.len() ==> #[trigger] encode_utf8(ns[i]).len() <= u32::MAX);

        assert(d.subrange(28, 28 + sb.len() as int) =~= sb);
        crate::archive::lemma_sread_strings_enc(d, 28, ns);
        let p3: int = 28 + sb.len() as int;

        assert(d.subrange(p3, p3 + 2 * nj) =~= pb);
        crate::archive::lemma_sread_i16_seq_enc(d, p3, sk.joint_parents@);
        let p4 = p3 + 2 * nj;

        let pn = sk.joint_rest_poses@.len() as int;
        assert(pn == (nj + 3) / 4);
        assert(d.subrange(p4, p4 + 160 * pn) =~= ob);
        crate::archive::lemma_sread_soa_seq_enc(d, p4, sk.joint_rest_poses@);
        assert(p4 + 160 * pn == d.len());

        lemma_pairs_upto_names_of(pairs, nj, nj);
        assert(pairs_below(pairs, nj) =~= pairs);
    }
}

/// Inserting distinct names in index order builds exactly the map that
/// associates the `i`-th name with index `i`.
proof fn lemma_pairs_upto_props(names: Seq<Seq<char>>, n: nat)
    requires
        n <= names.len(),
        names.len() <= i16::MAX,
        forall|i: int, j: int| 0 <= i < j < names.len() ==> names[i] != names[j],
    ensures
        pairs_upto(names, n).dom().finite(),
        forall|i: int|
            0 <= i < n ==> pairs_upto(names, n).contains_key(#[trigger] names[i]) && pairs_upto(
                names,
                n,
            )[names[i]] == i as i16,
        forall|k: Seq<char>|
            #[trigger] pairs_upto(names, n).contains_key(k) ==> exists|i: int|
                0 <= i < n && names[i] == k,
    decreases n,
{
    if n > 0 {
        lemma_pairs_upto_props(names, (n - 1) as nat);
        let prev = pairs_upto(names, (n - 1) as nat);
        let removed = prev.dom().filter(|k: Seq<char>| prev[k] == (n - 1) as i16);
        assert forall|k: Seq<char>| !removed.contains(k) by {
            if prev.contains_key(k) {
                let i = choose|i: int| 0 <= i < n - 1 && names[i] == k;
                assert(prev[k] == i as i16);
                assert(i as i16 != (n - 1) as i16);
            }
        }
        assert(prev.remove_keys(removed) =~= prev);
        assert(pairs_upto(names, n) == prev.insert(names[n - 1], (n - 1) as i16));
        assert forall|i: int| 0 <= i < n implies pairs_upto(names, n).contains_key(
            #[trigger] names[i],
        ) && pairs_upto(names, n)[names[i]] == i as i16 by {
            if i < n - 1 {
                assert(names[i] != names[n - 1]);
            }
        }
    }
}

/// A skeleton built from any valid archive — one whose joint count fits
/// the 16-bit index space and whose names are pairwise distinct — is
/// well-formed and encodable, so the round-trip law applies to it: decoding
/// an archive, re-encoding and re-decoding reproduces identical data.
pub proof fn lemma_decoded_skeleton_encodable(
    tag: Seq<char>,
    version: u32,
    d: Seq<u8>,
    p: int,
    sd: SpecSkel,
    sk: Skeleton,
)
    requires
        sskel(tag, version, d, p) == (SkelRead::Skel(sd)),
        sd.names.len() <= i16::MAX,
        forall|i: int, j: int| 0 <= i < j < sd.names.len() ==> sd.names[i] != sd.names[j],
        sk.joint_parents@ == sd.parents,
        sk.joint_rest_poses@ == sd.poses,
        sk.joint_names@ == pairs_upto(sd.names, sd.names.len()),
    ensures
        sk.encodable(),
{
    let pairs = sk.joint_names@;
    match smeta(tag, version, d, p, true) {
        MetaRead::Meta(m) => {
            let nj = m.num_joints;
            if nj == 0 {
                assert(sd.names =~= Seq::<Seq<char>>::empty());
                assert(sd.parents =~= Seq::<i16>::empty());
                assert(sd.poses == Seq::new(0, |k: int| crate::archive::soa_at(d, m.end + 160 * k)));
                assert(sd.poses.len() == 0);
                lemma_pairs_upto_props(sd.names, 0);
            } else {
                assert(nj > 0);
                match sread_i32(d, p) {
                    SRead::Val(nj0, p1) => {
                        match sread_i32(d, p1) {
                            SRead::Val(_, p2) => {
                                crate::archive::lemma_sread_strings_val(d, p2, nj as nat);
                                assert(m.names.len() == nj as nat);
                                assert(m.parents.len() == nj as nat);
                            },
                            _ => {
                                assert(false);
                            },
                        }
                    },
                    _ => {
                        assert(false);
                    },
                }
                assert(sd.poses.len() == ((nj + 3) / 4) as nat);
                lemma_pairs_upto_props(sd.names, sd.names.len());
            }
            let n = sd.names.len() as int;
            assert(sk.joint_parents@.len() == n);
            assert forall|k: Seq<char>| #[trigger] pairs.contains_key(k) implies 0 <= pairs[k] < n
                && encode_utf8(k).len() <= u32::MAX by {
                let i = choose|i: int| 0 <= i < n && sd.names[i] == k;
                assert(pairs[sd.names[i]] == i as i16);
            }
            assert(index_injective(pairs)) by {
                assert forall|k1: Seq<char>, k2: Seq<char>|
                    pairs.contains_key(k1) && pairs.contains_key(k2) && pairs[k1] == pairs[k2]
                    implies k1 == k2 by {
                    let i1 = choose|i: int| 0 <= i < n && sd.names[i] == k1;
                    let i2 = choose|i: int| 0 <= i < n && sd.names[i] == k2;
                    assert(pairs[k1] == i1 as i16);
                    assert(pairs[k2] == i2 as i16);
                    assert(i1 == i2);
                }
            }
            assert(sk.names_complete()) by {
                assert forall|i: int| 0 <= i < sk.joint_parents@.len() implies #[trigger] has_name(
                    pairs,
                    i,
                ) by {
                    assert(pairs.contains_key(sd.names[i]) && pairs[sd.names[i]] == i as i16);
                }
            }
        },
        _ => {
            assert(false);
        },
    }
}

impl Skeleton {
    /// Duplicates the skeleton through its archive encoding. For a
    /// well-formed skeleton the decode always succeeds and reproduces the
    /// same joint parents, rest poses and name associations: the round-trip
    /// law in executable form.
    pub fn duplicate(&self) -> (res: Skeleton)
        requires
            self.encodable(),
        ensures
            res.joint_parents@ == self.joint_parents@,
            res.joint_rest_poses@ == self.joint_rest_poses@,
            res.joint_names@ == self.joint_names@,
    {
        let bytes = self.to_archive();
        proof {
            lemma_archive_round_trip(*self);
        }
        let mut archive = match Archive::from_bytes(bytes) {
            Ok(a) => a,
            Err(_) => {
                proof {
                    assert(false);
                }
                return Skeleton::default();
            },
        };
        match Skeleton::from_archive(&mut archive) {
            Ok(sk) => sk,
            Err(_) => {
                proof {
                    assert(false);
                }
                Skeleton::default()
            },
        }
    }
}

} // verus!
