//! The writer: from mesh views that were authored one by one to a single
//! packed layout, its descriptor, and the bytes of a container.

use vstd::prelude::*;
use crate::attributes::{canonical, AttributeMap};
use crate::bytes::{
    concat, lemma_concat_take_all, lemma_concat_take_next, lemma_sum_take_all, lemma_sum_take_next,
    sum,
};
use crate::descriptor::{
    bitcode_encoded, IndexFormat, IndicesInfo, IyesMeshDescriptor, MeshInfo, RecordValue,
    VertexFormat,
};
use crate::checksum::{checksum_data, checksum_metadata, metadata_checksum_of, rapidhash_of};
use crate::header::IyesMeshHeader;
use crate::io::{compress_payload, payload_stream};
use crate::mesh::MeshDataRef;

verus! {

/// Why a container could not be written.
#[derive(Debug)]
pub enum WriteError {
    /// The compressor reported an error.
    Io(std::io::Error),
    /// A mesh view does not meet what a view must meet to be written.
    InvalidMesh,
    /// The mesh views differ in their attributes or their formats, or in
    /// the width of their indices.
    IncompatibleMeshes,
    /// No mesh view was added.
    NoMeshes,
    /// A count or a length does not fit the field that the format has for
    /// it.
    TooLarge,
}

/// How a container is written.
#[derive(Debug, Clone, Copy, PartialEq, Eq, Hash)]
pub struct IyesMeshWriterSettings {
    /// Convert U16 indices to U32 indices if necessary.
    pub upconvert_indices: bool,
    /// If false, will write zero in place of the data checksum
    pub write_data_checksum: bool,
    /// Zstd compression level.
    pub compression_level: i32,
}

/// The index format and the attributes that all views of a writer share.
pub struct HaveBuffers {
    pub indices: Option<IndexFormat>,
    pub attrs: AttributeMap<VertexFormat>,
}

/// Whether two views can share an index buffer: both have none, or both
/// have one, of the same width unless widths may be mixed.
pub open spec fn index_formats_agree(
    a: Option<IndexFormat>,
    b: Option<IndexFormat>,
    upconvert: bool,
) -> bool {
    match (a, b) {
        (None, None) => true,
        (Some(x), Some(y)) => x == y || upconvert,
        _ => false,
    }
}

/// Whether the views can be packed into shared buffers: they agree on
/// having indices and on the width of them, as far as widths must agree,
/// and all have the same attributes in the same formats.
pub open spec fn compatible(meshes: Seq<MeshDataRef>, upconvert: bool) -> bool {
    forall|i: int|
        0 <= i < meshes.len() ==> {
            &&& index_formats_agree(
                meshes[0].index_format(),
                (#[trigger] meshes[i]).index_format(),
                upconvert,
            )
            &&& meshes[i].formats() == meshes[0].formats()
        }
}

/// The index format of the shared index buffer: none where the views have
/// no indices, the wide one where a view has wide indices, and the narrow
/// one else.
pub open spec fn unified_index_format(meshes: Seq<MeshDataRef>) -> Option<IndexFormat> {
    if meshes.len() == 0 || meshes[0].index_format() is None {
        None
    } else if exists|i: int|
        0 <= i < meshes.len() && (#[trigger] meshes[i]).index_format() == Some(IndexFormat::U32) {
        Some(IndexFormat::U32)
    } else {
        Some(IndexFormat::U16)
    }
}

/// Narrow indices made wide: each pair of bytes is followed by two zero
/// bytes. A last byte without a partner is left out.
pub open spec fn widened(bytes: Seq<u8>) -> Seq<u8> {
    Seq::new(
        (bytes.len() / 2 * 4) as nat,
        |j: int|
            if j % 4 < 2 {
                bytes[j / 4 * 2 + j % 4]
            } else {
                0u8
            },
    )
}

/// The index bytes of a view as they stand in a shared index buffer of
/// format `unified`: made wide where they are narrow and the buffer is
/// wide, and as they are else.
pub open spec fn stored_index_bytes(mesh: MeshDataRef, unified: IndexFormat) -> Seq<u8> {
    if mesh.index_format() == Some(IndexFormat::U16) && unified == IndexFormat::U32 {
        widened(mesh.index_bytes())
    } else {
        mesh.index_bytes()
    }
}

/// The stored index bytes of each view, in the order of the views.
pub open spec fn index_pieces(meshes: Seq<MeshDataRef>, unified: Option<IndexFormat>) -> Seq<
    Seq<u8>,
> {
    match unified {
        Some(format) => Seq::new(meshes.len(), |i: int| stored_index_bytes(meshes[i], format)),
        None => Seq::empty(),
    }
}

/// The bytes that each view has for the attribute at place `a`, in the
/// order of the views. Compatible views have the same usage at the same
/// place.
pub open spec fn attribute_pieces(meshes: Seq<MeshDataRef>, a: int) -> Seq<Seq<u8>> {
    Seq::new(meshes.len(), |i: int| meshes[i].attribute_bytes(a))
}

/// The buffer of each attribute, in canonical order: the bytes of all
/// views for it, laid end to end.
pub open spec fn attribute_runs(meshes: Seq<MeshDataRef>) -> Seq<Seq<u8>> {
    Seq::new(meshes[0].attributes@.len(), |a: int| concat(attribute_pieces(meshes, a)))
}

/// The uncompressed payload: the user data, then the index bytes of all
/// views, then the buffer of each attribute.
pub open spec fn raw_payload(
    meshes: Seq<MeshDataRef>,
    user_data: Seq<u8>,
    unified: Option<IndexFormat>,
) -> Seq<u8> {
    user_data + concat(index_pieces(meshes, unified)) + concat(attribute_runs(meshes))
}

/// The number of vertices of each view.
pub open spec fn vertex_counts(meshes: Seq<MeshDataRef>) -> Seq<int> {
    Seq::new(meshes.len(), |i: int| meshes[i].spec_n_vertices() as int)
}

/// The number of indices of each view.
pub open spec fn index_counts(meshes: Seq<MeshDataRef>) -> Seq<int> {
    Seq::new(meshes.len(), |i: int| meshes[i].index_count() as int)
}

/// Byte size of the buffers of all views together, the user data left
/// out: the index bytes, twice for each buffer that is made wide, and the
/// bytes of every attribute.
pub open spec fn uncompressed_size(meshes: Seq<MeshDataRef>, upconverting: bool) -> int {
    sum(Seq::new(meshes.len(), |i: int| buffers_size(meshes[i], upconverting)))
}

/// Byte size of the buffers of one view, as `uncompressed_size` counts
/// them.
pub open spec fn buffers_size(mesh: MeshDataRef, upconverting: bool) -> int {
    (if mesh.index_format() == Some(IndexFormat::U16) && upconverting {
        mesh.index_bytes().len() as int * 2
    } else {
        mesh.index_bytes().len() as int
    }) + sum(Seq::new(mesh.attributes@.len(), |a: int| mesh.attribute_bytes(a).len() as int))
}

/// Where view `i` lies in the shared buffers, as `(first, count,
/// base_vertex)`. With indices, `first` and `count` count indices, and
/// `base_vertex` is the number of vertices of the views before it. Without,
/// `first` and `count` count vertices.
pub open spec fn mesh_entry(meshes: Seq<MeshDataRef>, indexed: bool, i: int) -> (int, int, int) {
    if indexed {
        (
            sum(index_counts(meshes).take(i)),
            index_counts(meshes)[i],
            sum(vertex_counts(meshes).take(i)),
        )
    } else {
        (sum(vertex_counts(meshes).take(i)), vertex_counts(meshes)[i], 0)
    }
}

/// Whether every entry of the mesh table fits its fields.
pub open spec fn table_fits(meshes: Seq<MeshDataRef>, indexed: bool) -> bool {
    &&& sum(vertex_counts(meshes)) <= u32::MAX
    &&& indexed ==> {
        &&& sum(index_counts(meshes)) <= u32::MAX
        &&& forall|i: int|
            0 <= i < meshes.len() ==> sum(#[trigger] vertex_counts(meshes).take(i)) <= i32::MAX
    }
}

/// Whether the counts and lengths of a container fit the fields that the
/// format has for them.
pub open spec fn within_limits(
    meshes: Seq<MeshDataRef>,
    user_data_len: nat,
    unified: Option<IndexFormat>,
) -> bool {
    &&& user_data_len <= u32::MAX
    &&& table_fits(meshes, unified is Some)
    &&& uncompressed_size(meshes, unified == Some(IndexFormat::U32)) + user_data_len <= u64::MAX
}

/// The record of the descriptor that is written for the views.
pub open spec fn written_record(
    meshes: Seq<MeshDataRef>,
    user_data_len: nat,
    unified: Option<IndexFormat>,
) -> RecordValue {
    (
        sum(vertex_counts(meshes)) as u32,
        user_data_len as u32,
        Seq::new(
            meshes.len(),
            |i: int|
                {
                    let entry = mesh_entry(meshes, unified is Some, i);
                    (entry.0 as u32, entry.1 as u32, entry.2 as i32)
                },
        ),
        match unified {
            Some(format) => Some((sum(index_counts(meshes)) as u32, format.spec_code())),
            None => None,
        },
        Seq::new(
            meshes[0].attributes@.len(),
            |a: int|
                (
                    meshes[0].attributes@[a].0.rank() as u64,
                    meshes[0].attribute_format(a).spec_code(),
                ),
        ),
    )
}

impl IyesMeshWriterSettings {
    /// The settings a writer has unless it is given others: indices are
    /// not made wide, the data checksum is written, and the compression
    /// level is the highest there is.
    pub open spec fn is_default(self) -> bool {
        !self.upconvert_indices && self.write_data_checksum
    }
}

impl IyesMeshWriterSettings {
    /// The settings of a writer that makes indices wide or not, writes the
    /// data checksum or not, and compresses at `level`, or at the level of
    /// the default settings where none is given.
    pub fn from_flags(upconvert_indices: bool, no_data_checksum: bool, level: Option<i32>) -> (r:
        Self)
        ensures
            r.upconvert_indices == upconvert_indices,
            r.write_data_checksum == !no_data_checksum,
            level matches Some(given) ==> r.compression_level == given,
    {
        let compression_level = match level {
            Some(given) => given,
            None => IyesMeshWriterSettings::default().compression_level,
        };
        IyesMeshWriterSettings {
            upconvert_indices,
            write_data_checksum: !no_data_checksum,
            compression_level,
        }
    }
}

impl Default for IyesMeshWriterSettings {
    fn default() -> (r: Self)
        ensures
            r.is_default(),
    {
        IyesMeshWriterSettings {
            upconvert_indices: false,
            write_data_checksum: true,
            compression_level: crate::io::zstd_max_level(),
        }
    }
}

/// Gathers mesh views and user data, and writes them as one container.
pub struct IyesMeshWriter<'s> {
    user_data: Option<&'s [u8]>,
    settings: IyesMeshWriterSettings,
    src_meshes: Vec<MeshDataRef<'s>>,
}

/// Every view is valid and lists its attributes in canonical order.
pub open spec fn all_valid(meshes: Seq<MeshDataRef>) -> bool {
    forall|i: int|
        0 <= i < meshes.len() ==> (#[trigger] meshes[i]).valid() && canonical(
            meshes[i].attributes@,
        )
}

impl<'s> IyesMeshWriter<'s> {
    #[verifier::type_invariant]
    spec fn holds_valid_meshes(self) -> bool {
        all_valid(self.src_meshes@)
    }

    /// The views added so far, in the order in which they were added.
    pub closed spec fn meshes(self) -> Seq<MeshDataRef<'s>> {
        self.src_meshes@
    }

    /// The user data, if any was set.
    pub closed spec fn user_data(self) -> Option<Seq<u8>> {
        match self.user_data {
            Some(bytes) => Some(bytes@),
            None => None,
        }
    }

    /// The user data as it is written: nothing where none was set.
    pub open spec fn user_bytes(self) -> Seq<u8> {
        match self.user_data() {
            Some(bytes) => bytes,
            None => Seq::empty(),
        }
    }

    pub closed spec fn settings(self) -> IyesMeshWriterSettings {
        self.settings
    }

    /// A writer with the default settings, without views or user data.
    pub fn new() -> (r: Self)
        ensures
            r.meshes().len() == 0,
            r.user_data() is None,
            r.settings().is_default(),
    {
        IyesMeshWriter::new_with_settings(IyesMeshWriterSettings::default())
    }

    /// A writer without views or user data.
    pub fn new_with_settings(settings: IyesMeshWriterSettings) -> (r: Self)
        ensures
            r.meshes().len() == 0,
            r.user_data() is None,
            r.settings() == settings,
    {
        IyesMeshWriter { settings, user_data: None, src_meshes: Vec::new() }
    }

    pub fn set_user_data(&mut self, user_data: &'s [u8])
        ensures
            final(self).user_data() == Some(user_data@),
            final(self).meshes() == old(self).meshes(),
            final(self).settings() == old(self).settings(),
    {
        proof {
            use_type_invariant(&*self);
        }
        self.user_data = Some(user_data);
    }

    pub fn clear_user_data(&mut self)
        ensures
            final(self).user_data() is None,
            final(self).meshes() == old(self).meshes(),
            final(self).settings() == old(self).settings(),
    {
        proof {
            use_type_invariant(&*self);
        }
        self.user_data = None;
    }

    pub fn with_user_data(self, user_data: &'s [u8]) -> (r: Self)
        ensures
            r.user_data() == Some(user_data@),
            r.meshes() == self.meshes(),
            r.settings() == self.settings(),
    {
        let mut writer = self;
        writer.set_user_data(user_data);
        writer
    }

    pub fn without_user_data(self) -> (r: Self)
        ensures
            r.user_data() is None,
            r.meshes() == self.meshes(),
            r.settings() == self.settings(),
    {
        let mut writer = self;
        writer.clear_user_data();
        writer
    }

    /// Adds a view after the views added before. A view that is not valid
    /// is refused, and the writer stays as it was.
    pub fn add_mesh(&mut self, mesh: MeshDataRef<'s>) -> (r: Result<(), WriteError>)
        ensures
            match r {
                Ok(()) => mesh.valid() && final(self).meshes() == old(self).meshes().push(mesh),
                Err(WriteError::InvalidMesh) => !mesh.valid() && final(self).meshes() == old(
                    self,
                ).meshes(),
                Err(_) => false,
            },
            final(self).user_data() == old(self).user_data(),
            final(self).settings() == old(self).settings(),
            all_valid(final(self).meshes()),
    {
        proof {
            use_type_invariant(&*self);
        }
        if !mesh.validate() {
            return Err(WriteError::InvalidMesh);
        }
        let _ = mesh.attributes.len();
        // The list is edited outside the writer and put back whole.
        let mut meshes: Vec<MeshDataRef<'s>> = Vec::new();
        std::mem::swap(&mut self.src_meshes, &mut meshes);
        meshes.push(mesh);
        std::mem::swap(&mut self.src_meshes, &mut meshes);
        Ok(())
    }

    /// The writer with one more view, or the reason why the view is
    /// refused.
    pub fn with_mesh(self, mesh: MeshDataRef<'s>) -> (r: Result<Self, WriteError>)
        ensures
            match r {
                Ok(writer) => mesh.valid() && writer.meshes() == self.meshes().push(mesh)
                    && writer.user_data() == self.user_data() && writer.settings()
                    == self.settings(),
                Err(WriteError::InvalidMesh) => !mesh.valid(),
                Err(_) => false,
            },
    {
        let mut writer = self;
        match writer.add_mesh(mesh) {
            Ok(()) => Ok(writer),
            Err(e) => Err(e),
        }
    }

    /// Finds the index format and the attributes that all views share.
    ///
    /// Without a view there is nothing to share. Views that are not
    /// compatible share nothing: one has indices and another none, or their
    /// indices differ in width and may not be made wide, or one has an
    /// attribute that another lacks or has in another format.
    pub fn scan_needed_buffers(&self) -> (r: Result<HaveBuffers, WriteError>)
        ensures
            all_valid(self.meshes()),
            match r {
                Ok(have) => {
                    &&& self.meshes().len() > 0
                    &&& compatible(self.meshes(), self.settings().upconvert_indices)
                    &&& have.indices == unified_index_format(self.meshes())
                    &&& have.attrs@ == self.meshes()[0].formats()
                },
                Err(WriteError::NoMeshes) => self.meshes().len() == 0,
                Err(WriteError::IncompatibleMeshes) => self.meshes().len() > 0 && !compatible(
                    self.meshes(),
                    self.settings().upconvert_indices,
                ),
                Err(_) => false,
            },
    {
        proof {
            use_type_invariant(self);
        }
        let n = self.src_meshes.len();
        if n == 0 {
            return Err(WriteError::NoMeshes);
        }
        let ghost meshes = self.src_meshes@;
        let upconvert = self.settings.upconvert_indices;
        let first = &self.src_meshes[0];
        let first_entries = first.attributes.as_slice();
        let first_format = match first.indices {
            Some(b) => Some(b.0),
            None => None,
        };
        let mut indices = first_format;
        let mut attrs: AttributeMap<VertexFormat> = AttributeMap::new();
        let mut a: usize = 0;
        while a < first_entries.len()
            invariant
                0 <= a <= first_entries@.len(),
                meshes.len() > 0,
                first_entries@ == meshes[0].attributes@,
                canonical(first_entries@),
                attrs@ == meshes[0].formats().take(a as int),
                canonical(attrs@),
            decreases first_entries@.len() - a,
        {
            let usage = first_entries[a].0;
            let format = first_entries[a].1.0;
            proof {
                let s = attrs@;
                assert forall|j: int| 0 <= j < s.len() implies (#[trigger] s[j]).0.rank()
                    < usage.rank() by {
                    assert(first_entries@[j].0.rank() < first_entries@[a as int].0.rank());
                }
                assert(s.push((usage, format)) =~= meshes[0].formats().take(a + 1));
            }
            attrs.append(usage, format);
            a += 1;
        }
        assert(attrs@ =~= meshes[0].formats());
        assert(meshes.take(1)[0] == meshes[0]);
        let mut i: usize = 1;
        while i < n
            invariant
                1 <= i <= n,
                n == meshes.len(),
                meshes == self.src_meshes@,
                all_valid(meshes),
                upconvert == self.settings.upconvert_indices,
                first_entries@ == meshes[0].attributes@,
                first_format == meshes[0].index_format(),
                compatible(meshes.take(i as int), upconvert),
                indices == unified_index_format(meshes.take(i as int)),
                !upconvert ==> indices == first_format,
            decreases n - i,
        {
            let ghost before = meshes.take(i as int);
            let ghost after = meshes.take(i + 1);
            assert(after[i as int] == meshes[i as int]);
            assert(after[0] == meshes[0] && before[0] == meshes[0]);
            assert forall|k: int| 0 <= k < i implies after[k] == before[k] by {}
            let m = &self.src_meshes[i];
            let format = match m.indices {
                Some(b) => Some(b.0),
                None => None,
            };
            let mut agrees = true;
            match (format, indices) {
                (None, None) => {},
                (Some(IndexFormat::U16), Some(IndexFormat::U16)) => {},
                (Some(IndexFormat::U32), Some(IndexFormat::U32)) => {},
                (Some(IndexFormat::U16), Some(IndexFormat::U32)) => {
                    if !upconvert {
                        agrees = false;
                    }
                },
                (Some(IndexFormat::U32), Some(IndexFormat::U16)) => {
                    if !upconvert {
                        agrees = false;
                    }
                    indices = Some(IndexFormat::U32);
                },
                _ => {
                    agrees = false;
                },
            }
            assert(agrees == index_formats_agree(first_format, format, upconvert)) by {
                if indices is Some && first_format is Some {
                    if exists|k: int|
                        0 <= k < before.len() && (#[trigger] before[k]).index_format() == Some(
                            IndexFormat::U32,
                        ) {
                        let k = choose|k: int|
                            0 <= k < before.len() && (#[trigger] before[k]).index_format() == Some(
                                IndexFormat::U32,
                            );
                        assert(index_formats_agree(
                            first_format,
                            before[k].index_format(),
                            upconvert,
                        ));
                    }
                }
            }
            if !agrees {
                assert(!compatible(meshes, upconvert)) by {
                    assert(meshes[i as int].index_format() == format);
                }
                return Err(WriteError::IncompatibleMeshes);
            }
            let entries = m.attributes.as_slice();
            let mut same = entries.len() == first_entries.len();
            assert(meshes[i as int].formats().len() == entries@.len());
            assert(meshes[0].formats().len() == first_entries@.len());
            let mut a: usize = 0;
            while same && a < entries.len()
                invariant
                    0 <= a <= entries@.len(),
                    0 < i < meshes.len(),
                    all_valid(meshes),
                    meshes == self.src_meshes@,
                    entries@ == meshes[i as int].attributes@,
                    first_entries@ == meshes[0].attributes@,
                    same ==> entries@.len() == first_entries@.len(),
                    same ==> forall|k: int|
                        0 <= k < a ==> meshes[i as int].formats()[k] == meshes[0].formats()[k],
                    !same ==> meshes[i as int].formats() != meshes[0].formats(),
                decreases entries@.len() - a + if same { 1int } else { 0int },
            {
                let mine = &entries[a];
                let theirs = &first_entries[a];
                if mine.0 == theirs.0 && mine.1.0 == theirs.1.0 {
                    a += 1;
                } else {
                    assert(meshes[i as int].formats()[a as int] != meshes[0].formats()[a as int]);
                    same = false;
                }
            }
            if !same {
                assert(!compatible(meshes, upconvert)) by {
                    assert(meshes[i as int].formats() != meshes[0].formats());
                }
                return Err(WriteError::IncompatibleMeshes);
            }
            assert(meshes[i as int].formats() =~= meshes[0].formats());
            proof {
                assert forall|k: int| 0 <= k < after.len() implies {
                    &&& index_formats_agree(
                        after[0].index_format(),
                        (#[trigger] after[k]).index_format(),
                        upconvert,
                    )
                    &&& after[k].formats() == after[0].formats()
                } by {
                    if k < i {
                        assert(after[k] == before[k]);
                    }
                }
                // the unified format of the longer prefix
                if first_format is Some {
                    if exists|k: int|
                        0 <= k < before.len() && (#[trigger] before[k]).index_format() == Some(
                            IndexFormat::U32,
                        ) {
                        let k = choose|k: int|
                            0 <= k < before.len() && (#[trigger] before[k]).index_format() == Some(
                                IndexFormat::U32,
                            );
                        assert(after[k].index_format() == Some(IndexFormat::U32));
                    } else if format == Some(IndexFormat::U32) {
                        assert(after[i as int].index_format() == Some(IndexFormat::U32));
                    } else {
                        assert forall|k: int| 0 <= k < after.len() implies (
                        #[trigger] after[k]).index_format() != Some(IndexFormat::U32) by {
                            if k < i {
                                assert(after[k] == before[k]);
                            }
                        }
                    }
                }
            }
            i += 1;
        }
        assert(meshes.take(n as int) =~= meshes);
        Ok(HaveBuffers { indices, attrs })
    }
}


/// The sizes summed up by `uncompressed_size` and the counts summed up in
/// a mesh table are not negative.
pub proof fn lemma_counts_not_negative(meshes: Seq<MeshDataRef>, upconverting: bool)
    ensures
        forall|i: int| 0 <= i < meshes.len() ==> #[trigger] vertex_counts(meshes)[i] >= 0,
        forall|i: int| 0 <= i < meshes.len() ==> #[trigger] index_counts(meshes)[i] >= 0,
        forall|i: int| 0 <= i < meshes.len() ==> buffers_size(#[trigger] meshes[i], upconverting) >= 0,
{
    assert forall|i: int| 0 <= i < meshes.len() implies buffers_size(
        #[trigger] meshes[i],
        upconverting,
    ) >= 0 by {
        lemma_buffers_size(meshes[i], upconverting, 0);
    }
}

/// The bytes of the attributes of a view up to some place are no more than
/// the bytes of all its attributes, which are part of the size of its
/// buffers.
pub proof fn lemma_buffers_size(mesh: MeshDataRef, upconverting: bool, a: int)
    requires
        0 <= a <= mesh.attributes@.len(),
    ensures
        0 <= sum(
            Seq::new(mesh.attributes@.len(), |k: int| mesh.attribute_bytes(k).len() as int).take(a),
        ) <= sum(
            Seq::new(mesh.attributes@.len(), |k: int| mesh.attribute_bytes(k).len() as int),
        ) <= buffers_size(mesh, upconverting),
{
    let lens = Seq::new(mesh.attributes@.len(), |k: int| mesh.attribute_bytes(k).len() as int);
    crate::bytes::lemma_sum_take_monotonic(lens, a, lens.len() as int);
    lemma_sum_take_all(lens);
}

/// Byte size of the buffers of one view; `None` where it does not fit in
/// 64 bits.
pub fn mesh_buffers_size(mesh: &MeshDataRef, upconverting: bool) -> (r: Option<u64>)
    ensures
        match r {
            Some(size) => size == buffers_size(*mesh, upconverting),
            None => buffers_size(*mesh, upconverting) > u64::MAX,
        },
{
    let mut total: u64 = 0;
    if let Some(b) = mesh.indices {
        let len = b.1.len() as u64;
        if matches!(b.0, IndexFormat::U16) && upconverting {
            match len.checked_add(len) {
                Some(twice) => {
                    total = twice;
                },
                None => {
                    proof {
                        lemma_buffers_size(*mesh, upconverting, 0);
                    }
                    return None;
                },
            }
        } else {
            total = len;
        }
    }
    let entries = mesh.attributes.as_slice();
    let ghost lens = Seq::new(
        mesh.attributes@.len(),
        |k: int| mesh.attribute_bytes(k).len() as int,
    );
    let ghost index_part = total as int;
    proof {
        lemma_sum_take_all(lens);
    }
    let mut a: usize = 0;
    while a < entries.len()
        invariant
            0 <= a <= entries@.len(),
            entries@ == mesh.attributes@,
            lens == Seq::new(mesh.attributes@.len(), |k: int| mesh.attribute_bytes(k).len() as int),
            total == index_part + sum(lens.take(a as int)),
            buffers_size(*mesh, upconverting) == index_part + sum(lens),
        decreases entries@.len() - a,
    {
        let len = entries[a].1.1.len() as u64;
        proof {
            lemma_sum_take_next(lens, a as int);
            lemma_buffers_size(*mesh, upconverting, a + 1);
        }
        match total.checked_add(len) {
            Some(next) => {
                total = next;
            },
            None => {
                return None;
            },
        }
        a += 1;
    }
    Some(total)
}

/// Appends narrow indices, made wide.
pub fn widen_into(bytes: &[u8], out: &mut Vec<u8>)
    ensures
        final(out)@ == old(out)@ + widened(bytes@),
{
    let n = bytes.len() / 2;
    let ghost wide = widened(bytes@);
    let mut i: usize = 0;
    assert(out@ =~= old(out)@ + wide.take(0));
    while i < n
        invariant
            0 <= i <= n,
            n == bytes@.len() / 2,
            bytes@.len() <= usize::MAX,
            wide == widened(bytes@),
            out@ == old(out)@ + wide.take(4 * i),
        decreases n - i,
    {
        let ghost before = out@;
        out.push(bytes[2 * i]);
        out.push(bytes[2 * i + 1]);
        out.push(0);
        out.push(0);
        proof {
            assert(wide.len() == n * 4);
            assert(wide[4 * i] == bytes@[2 * i]);
            assert(wide[4 * i + 1] == bytes@[2 * i + 1]);
            assert(wide[4 * i + 2] == 0);
            assert(wide[4 * i + 3] == 0);
            assert(out@ =~= old(out)@ + wide.take(4 * (i + 1)));
        }
        i += 1;
    }
    assert(wide.take(4 * n) =~= wide);
}

impl<'s> IyesMeshWriter<'s> {
    /// Byte size of the buffers of all views together, the user data left
    /// out; `None` where it does not fit in 64 bits.
    pub fn compute_uncompressed_sizes(&self, upconverting_indices: bool) -> (r: Option<u64>)
        ensures
            match r {
                Some(size) => size == uncompressed_size(self.meshes(), upconverting_indices),
                None => uncompressed_size(self.meshes(), upconverting_indices) > u64::MAX,
            },
    {
        let ghost meshes = self.src_meshes@;
        let ghost sizes = Seq::new(
            meshes.len(),
            |i: int| buffers_size(meshes[i], upconverting_indices),
        );
        proof {
            lemma_sum_take_all(sizes);
            lemma_counts_not_negative(meshes, upconverting_indices);
        }
        let mut total: u64 = 0;
        let mut i: usize = 0;
        while i < self.src_meshes.len()
            invariant
                0 <= i <= meshes.len(),
                meshes == self.src_meshes@,
                sizes == Seq::new(meshes.len(), |i: int| buffers_size(meshes[i], upconverting_indices)),
                forall|k: int| 0 <= k < sizes.len() ==> sizes[k] >= 0,
                total == sum(sizes.take(i as int)),
                uncompressed_size(meshes, upconverting_indices) == sum(sizes),
            decreases meshes.len() - i,
        {
            proof {
                lemma_sum_take_next(sizes, i as int);
                crate::bytes::lemma_sum_take_monotonic(sizes, i + 1, sizes.len() as int);
                lemma_sum_take_all(sizes);
            }
            let size = match mesh_buffers_size(&self.src_meshes[i], upconverting_indices) {
                Some(size) => size,
                None => {
                    return None;
                },
            };
            match total.checked_add(size) {
                Some(next) => {
                    total = next;
                },
                None => {
                    return None;
                },
            }
            i += 1;
        }
        Some(total)
    }

    /// The mesh table: where each view lies in the shared buffers. `None`
    /// where an entry does not fit its fields.
    pub fn gen_meshinfo(&self, has_indices: bool) -> (r: Option<Vec<MeshInfo>>)
        ensures
            match r {
                Some(table) => {
                    &&& table_fits(self.meshes(), has_indices)
                    &&& table@.len() == self.meshes().len()
                    &&& forall|i: int|
                        0 <= i < table@.len() ==> {
                            let entry = mesh_entry(self.meshes(), has_indices, i);
                            &&& (#[trigger] table@[i]).first == entry.0
                            &&& table@[i].count == entry.1
                            &&& table@[i].base_vertex == entry.2
                        }
                },
                None => !table_fits(self.meshes(), has_indices),
            },
    {
        let ghost meshes = self.src_meshes@;
        let ghost vs = vertex_counts(meshes);
        let ghost is = index_counts(meshes);
        proof {
            lemma_counts_not_negative(meshes, false);
            lemma_sum_take_all(vs);
            lemma_sum_take_all(is);
        }
        let mut table: Vec<MeshInfo> = Vec::new();
        let mut indices_before: u32 = 0;
        let mut vertices_before: u32 = 0;
        let mut i: usize = 0;
        while i < self.src_meshes.len()
            invariant
                0 <= i <= meshes.len(),
                meshes == self.src_meshes@,
                vs == vertex_counts(meshes),
                is == index_counts(meshes),
                forall|k: int| 0 <= k < meshes.len() ==> #[trigger] vs[k] >= 0,
                forall|k: int| 0 <= k < meshes.len() ==> #[trigger] is[k] >= 0,
                vertices_before == sum(vs.take(i as int)),
                has_indices ==> indices_before == sum(is.take(i as int)),
                has_indices ==> forall|k: int| 0 <= k < i ==> sum(#[trigger] vs.take(k)) <= i32::MAX,
                table@.len() == i,
                forall|k: int|
                    0 <= k < i ==> {
                        let entry = mesh_entry(meshes, has_indices, k);
                        &&& (#[trigger] table@[k]).first == entry.0
                        &&& table@[k].count == entry.1
                        &&& table@[k].base_vertex == entry.2
                    },
            decreases meshes.len() - i,
        {
            let m = &self.src_meshes[i];
            let n_vertices = m.n_vertices();
            let n_indices = match m.n_indices() {
                Some(n) => n,
                None => 0,
            };
            proof {
                lemma_sum_take_next(vs, i as int);
                lemma_sum_take_next(is, i as int);
                crate::bytes::lemma_sum_take_monotonic(vs, i + 1, vs.len() as int);
                crate::bytes::lemma_sum_take_monotonic(is, i + 1, is.len() as int);
                lemma_sum_take_all(vs);
                lemma_sum_take_all(is);
                assert(vs[i as int] == n_vertices);
                assert(is[i as int] == n_indices);
            }
            if n_vertices as u64 > (u32::MAX - vertices_before) as u64 {
                return None;
            }
            let ghost before = table@;
            if has_indices {
                if n_indices as u64 > (u32::MAX - indices_before) as u64 {
                    return None;
                }
                if vertices_before > i32::MAX as u32 {
                    assert(sum(vs.take(i as int)) > i32::MAX);
                    return None;
                }
                table.push(
                    MeshInfo {
                        first: indices_before,
                        count: n_indices as u32,
                        base_vertex: vertices_before as i32,
                    },
                );
                indices_before = indices_before + n_indices as u32;
            } else {
                table.push(
                    MeshInfo { first: vertices_before, count: n_vertices as u32, base_vertex: 0 },
                );
            }
            vertices_before = vertices_before + n_vertices as u32;
            proof {
                assert forall|k: int| 0 <= k < i + 1 implies {
                    let entry = mesh_entry(meshes, has_indices, k);
                    &&& (#[trigger] table@[k]).first == entry.0
                    &&& table@[k].count == entry.1
                    &&& table@[k].base_vertex == entry.2
                } by {
                    if k < i {
                        assert(table@[k] == before[k]);
                    }
                }
            }
            i += 1;
        }
        Some(table)
    }

    /// The number of vertices and the number of indices of all views
    /// together; `None` where one of them does not fit in 32 bits.
    pub fn count_elements(&self) -> (r: Option<(u32, u32)>)
        ensures
            match r {
                Some((n_vertices, n_indices)) => n_vertices == sum(vertex_counts(self.meshes()))
                    && n_indices == sum(index_counts(self.meshes())),
                None => sum(vertex_counts(self.meshes())) > u32::MAX || sum(
                    index_counts(self.meshes()),
                ) > u32::MAX,
            },
    {
        let ghost meshes = self.src_meshes@;
        let ghost vs = vertex_counts(meshes);
        let ghost is = index_counts(meshes);
        proof {
            lemma_counts_not_negative(meshes, false);
            lemma_sum_take_all(vs);
            lemma_sum_take_all(is);
        }
        let mut n_vertices: u32 = 0;
        let mut n_indices: u32 = 0;
        let mut i: usize = 0;
        while i < self.src_meshes.len()
            invariant
                0 <= i <= meshes.len(),
                meshes == self.src_meshes@,
                vs == vertex_counts(meshes),
                is == index_counts(meshes),
                forall|k: int| 0 <= k < meshes.len() ==> #[trigger] vs[k] >= 0,
                forall|k: int| 0 <= k < meshes.len() ==> #[trigger] is[k] >= 0,
                n_vertices == sum(vs.take(i as int)),
                n_indices == sum(is.take(i as int)),
            decreases meshes.len() - i,
        {
            let m = &self.src_meshes[i];
            let vertices = m.n_vertices();
            let indices = match m.n_indices() {
                Some(n) => n,
                None => 0,
            };
            proof {
                lemma_sum_take_next(vs, i as int);
                lemma_sum_take_next(is, i as int);
                crate::bytes::lemma_sum_take_monotonic(vs, i + 1, vs.len() as int);
                crate::bytes::lemma_sum_take_monotonic(is, i + 1, is.len() as int);
                lemma_sum_take_all(vs);
                lemma_sum_take_all(is);
                assert(vs[i as int] == vertices);
                assert(is[i as int] == indices);
            }
            if vertices as u64 > (u32::MAX - n_vertices) as u64 {
                return None;
            }
            if indices as u64 > (u32::MAX - n_indices) as u64 {
                return None;
            }
            n_vertices = n_vertices + vertices as u32;
            n_indices = n_indices + indices as u32;
            i += 1;
        }
        Some((n_vertices, n_indices))
    }
}


impl<'s> IyesMeshWriter<'s> {
    /// The uncompressed payload: the user data, then the index bytes of
    /// all views, made wide where the shared buffer is wide and theirs are
    /// narrow, then for each attribute in canonical order the bytes of all
    /// views.
    fn encode_data(&self, unified: Option<IndexFormat>) -> (r: Vec<u8>)
        requires
            self.meshes().len() > 0,
            forall|i: int|
                0 <= i < self.meshes().len() ==> (#[trigger] self.meshes()[i]).attributes@.len()
                    == self.meshes()[0].attributes@.len(),
        ensures
            r@ == raw_payload(self.meshes(), self.user_bytes(), unified),
    {
        let ghost meshes = self.src_meshes@;
        let ghost user = self.user_bytes();
        let mut out: Vec<u8> = Vec::new();
        if let Some(user_data) = self.user_data {
            out.extend_from_slice(user_data);
        }
        assert(out@ =~= user);
        let ghost index_run = index_pieces(meshes, unified);
        match unified {
            Some(format) => {
                let mut i: usize = 0;
                proof {
                    lemma_concat_take_all(index_run);
                    assert(out@ =~= user + concat(index_run.take(0)));
                }
                while i < self.src_meshes.len()
                    invariant
                        0 <= i <= meshes.len(),
                        meshes == self.src_meshes@,
                        index_run == index_pieces(meshes, Some(format)),
                        out@ == user + concat(index_run.take(i as int)),
                    decreases meshes.len() - i,
                {
                    proof {
                        lemma_concat_take_next(index_run, i as int);
                        assert(index_run[i as int] == stored_index_bytes(meshes[i as int], format));
                    }
                    let ghost before = out@;
                    match self.src_meshes[i].indices {
                        Some(b) => {
                            if matches!(b.0, IndexFormat::U16) && matches!(format, IndexFormat::U32) {
                                widen_into(b.1, &mut out);
                            } else {
                                out.extend_from_slice(b.1);
                            }
                        },
                        None => {},
                    }
                    assert(out@ =~= before + index_run[i as int]);
                    assert(out@ =~= user + concat(index_run.take(i + 1)));
                    i += 1;
                }
                proof {
                    lemma_concat_take_all(index_run);
                }
            },
            None => {
                assert(concat(index_run) =~= Seq::<u8>::empty());
            },
        }
        let ghost head = user + concat(index_run);
        assert(out@ =~= head);
        let ghost runs = attribute_runs(meshes);
        let n_attributes = self.src_meshes[0].attributes.len();
        let mut a: usize = 0;
        proof {
            lemma_concat_take_all(runs);
            assert(out@ =~= head + concat(runs.take(0)));
        }
        while a < n_attributes
            invariant
                0 <= a <= n_attributes,
                meshes == self.src_meshes@,
                meshes.len() > 0,
                n_attributes == meshes[0].attributes@.len(),
                forall|i: int|
                    0 <= i < meshes.len() ==> (#[trigger] meshes[i]).attributes@.len()
                        == meshes[0].attributes@.len(),
                runs == attribute_runs(meshes),
                out@ == head + concat(runs.take(a as int)),
            decreases n_attributes - a,
        {
            let ghost pieces = attribute_pieces(meshes, a as int);
            let ghost done = out@;
            let mut i: usize = 0;
            proof {
                lemma_concat_take_all(pieces);
                assert(out@ =~= done + concat(pieces.take(0)));
            }
            while i < self.src_meshes.len()
                invariant
                    0 <= i <= meshes.len(),
                    0 <= a < n_attributes,
                    meshes == self.src_meshes@,
                    meshes.len() > 0,
                    n_attributes == meshes[0].attributes@.len(),
                    forall|k: int|
                        0 <= k < meshes.len() ==> (#[trigger] meshes[k]).attributes@.len()
                            == meshes[0].attributes@.len(),
                    pieces == attribute_pieces(meshes, a as int),
                    out@ == done + concat(pieces.take(i as int)),
                decreases meshes.len() - i,
            {
                proof {
                    lemma_concat_take_next(pieces, i as int);
                    assert(meshes[i as int].attributes@.len() == n_attributes);
                }
                let entries = self.src_meshes[i].attributes.as_slice();
                out.extend_from_slice(entries[a].1.1);
                assert(out@ =~= done + concat(pieces.take(i + 1)));
                i += 1;
            }
            proof {
                lemma_concat_take_all(pieces);
                lemma_concat_take_next(runs, a as int);
                assert(runs[a as int] == concat(pieces));
                assert(out@ =~= head + concat(runs.take(a + 1)));
            }
            a += 1;
        }
        proof {
            lemma_concat_take_all(runs);
        }
        out
    }

    /// The packed layout of the views: the descriptor of the container and
    /// its uncompressed payload.
    ///
    /// The views must be there and be compatible, and every count and
    /// length must fit the field the format has for it.
    pub fn layout(&self) -> (r: Result<(IyesMeshDescriptor, Vec<u8>), WriteError>)
        ensures
            all_valid(self.meshes()),
            match r {
                Ok((descriptor, payload)) => {
                    &&& self.meshes().len() > 0
                    &&& compatible(self.meshes(), self.settings().upconvert_indices)
                    &&& within_limits(
                        self.meshes(),
                        self.user_bytes().len(),
                        unified_index_format(self.meshes()),
                    )
                    &&& descriptor.record() == written_record(
                        self.meshes(),
                        self.user_bytes().len(),
                        unified_index_format(self.meshes()),
                    )
                    &&& payload@ == raw_payload(
                        self.meshes(),
                        self.user_bytes(),
                        unified_index_format(self.meshes()),
                    )
                },
                Err(WriteError::NoMeshes) => self.meshes().len() == 0,
                Err(WriteError::IncompatibleMeshes) => self.meshes().len() > 0 && !compatible(
                    self.meshes(),
                    self.settings().upconvert_indices,
                ),
                Err(WriteError::TooLarge) => self.meshes().len() > 0 && compatible(
                    self.meshes(),
                    self.settings().upconvert_indices,
                ) && !within_limits(
                    self.meshes(),
                    self.user_bytes().len(),
                    unified_index_format(self.meshes()),
                ),
                Err(_) => false,
            },
    {
        let have = match self.scan_needed_buffers() {
            Ok(have) => have,
            Err(e) => {
                return Err(e);
            },
        };
        let ghost meshes = self.meshes();
        let upconverting = self.settings.upconvert_indices && matches!(
            have.indices,
            Some(IndexFormat::U32)
        );
        proof {
            lemma_upconverting(meshes, self.settings.upconvert_indices);
        }
        let user_data_len = match self.user_data {
            Some(bytes) => bytes.len(),
            None => 0,
        };
        if user_data_len as u64 > u32::MAX as u64 {
            return Err(WriteError::TooLarge);
        }
        let buffers = match self.compute_uncompressed_sizes(upconverting) {
            Some(size) => size,
            None => {
                return Err(WriteError::TooLarge);
            },
        };
        if buffers > u64::MAX - user_data_len as u64 {
            return Err(WriteError::TooLarge);
        }
        let table = match self.gen_meshinfo(have.indices.is_some()) {
            Some(table) => table,
            None => {
                return Err(WriteError::TooLarge);
            },
        };
        let (n_vertices, n_indices) = match self.count_elements() {
            Some(counts) => counts,
            None => {
                proof {
                    lemma_counts_not_negative(meshes, false);
                    if have.indices is None {
                        assert forall|i: int| 0 <= i < meshes.len() implies index_counts(
                            meshes,
                        )[i] == 0 by {
                            assert(index_formats_agree(
                                meshes[0].index_format(),
                                meshes[i].index_format(),
                                self.settings().upconvert_indices,
                            ));
                        }
                        crate::bytes::lemma_sum_scaled(
                            index_counts(meshes),
                            index_counts(meshes),
                            0,
                        );
                    }
                }
                return Err(WriteError::TooLarge);
            },
        };
        let descriptor = IyesMeshDescriptor {
            n_vertices,
            user_data_len: user_data_len as u32,
            meshes: table,
            indices: match have.indices {
                Some(format) => Some(IndicesInfo { n_indices, format }),
                None => None,
            },
            attributes: have.attrs,
        };
        proof {
            let written = written_record(meshes, self.user_bytes().len(), have.indices);
            assert(descriptor.record().2 =~= written.2);
            assert(descriptor.record().4 =~= written.4);
            assert forall|i: int| 0 <= i < meshes.len() implies (#[trigger] meshes[i]).attributes@.len()
                == meshes[0].attributes@.len() by {
                assert(meshes[i].formats().len() == meshes[0].formats().len());
            }
        }
        let payload = self.encode_data(have.indices);
        Ok((descriptor, payload))
    }
}

/// Among compatible views, narrow indices are made wide only when that is
/// allowed: the shared buffer is wide and some view is narrow only if
/// widths may be mixed.
pub proof fn lemma_upconverting(meshes: Seq<MeshDataRef>, upconvert: bool)
    requires
        meshes.len() > 0,
        compatible(meshes, upconvert),
    ensures
        !upconvert && unified_index_format(meshes) == Some(IndexFormat::U32) ==> forall|i: int|
            0 <= i < meshes.len() ==> (#[trigger] meshes[i]).index_format() == Some(
                IndexFormat::U32,
            ),
        forall|i: int|
            0 <= i < meshes.len() ==> ((#[trigger] meshes[i]).index_format() is Some
                <==> unified_index_format(meshes) is Some),
        uncompressed_size(meshes, unified_index_format(meshes) == Some(IndexFormat::U32))
            == uncompressed_size(
            meshes,
            upconvert && unified_index_format(meshes) == Some(IndexFormat::U32),
        ),
{
    let unified = unified_index_format(meshes);
    assert forall|i: int| 0 <= i < meshes.len() implies ((#[trigger] meshes[i]).index_format() is Some
        <==> unified is Some) by {
        assert(index_formats_agree(meshes[0].index_format(), meshes[i].index_format(), upconvert));
    }
    if !upconvert && unified == Some(IndexFormat::U32) {
        let k = choose|k: int|
            0 <= k < meshes.len() && (#[trigger] meshes[k]).index_format() == Some(IndexFormat::U32);
        assert(index_formats_agree(meshes[0].index_format(), meshes[k].index_format(), upconvert));
        assert forall|i: int| 0 <= i < meshes.len() implies (#[trigger] meshes[i]).index_format()
            == Some(IndexFormat::U32) by {
            assert(index_formats_agree(
                meshes[0].index_format(),
                meshes[i].index_format(),
                upconvert,
            ));
        }
    }
    {
        let b = unified == Some(IndexFormat::U32);
        let s = Seq::new(meshes.len(), |i: int| buffers_size(meshes[i], b));
        let t = Seq::new(meshes.len(), |i: int| buffers_size(meshes[i], upconvert && b));
        assert forall|i: int| 0 <= i < s.len() implies s[i] == t[i] by {
            if b && !upconvert {
                assert(meshes[i].index_format() == Some(IndexFormat::U32));
            }
        }
        crate::bytes::lemma_sum_equal(s, t);
    }
}


/// The checksum that the header of a container carries for its payload
/// stream: the checksum of the stream, or zero where none is written.
pub open spec fn written_data_checksum(stream: Seq<u8>, write_data_checksum: bool) -> u64 {
    if write_data_checksum {
        rapidhash_of(stream)
    } else {
        0
    }
}

/// The bytes of the container of an encoded descriptor and a payload
/// stream: the header of this format version, with the length of the
/// descriptor and the two checksums, then the descriptor, then the stream.
pub open spec fn container_bytes(
    descriptor: Seq<u8>,
    stream: Seq<u8>,
    write_data_checksum: bool,
) -> Seq<u8> {
    let data_checksum = written_data_checksum(stream, write_data_checksum);
    IyesMeshHeader::sealed_encoding(
        descriptor.len() as u16,
        metadata_checksum_of(descriptor.len() as u16, data_checksum, descriptor),
        data_checksum,
    ) + descriptor + stream
}

/// Appends a container to `write`: the header, the encoded descriptor and
/// the payload stream.
pub fn frame_container(
    write: &mut Vec<u8>,
    header: &IyesMeshHeader,
    bytes_descriptor: &[u8],
    stream: &[u8],
)
    ensures
        final(write)@ == old(write)@ + (header.encoding() + bytes_descriptor@ + stream@),
{
    let encoded = header.as_bytes();
    write.extend_from_slice(encoded.as_slice());
    write.extend_from_slice(bytes_descriptor);
    write.extend_from_slice(stream);
    assert(write@ =~= old(write)@ + (header.encoding() + bytes_descriptor@ + stream@));
}

/// Seals an encoded descriptor and a payload stream into a container, and
/// appends it to `write`. A descriptor of more than 65535 bytes cannot be
/// sealed: its length has sixteen bits in the header.
pub fn seal_container(
    write: &mut Vec<u8>,
    bytes_descriptor: &[u8],
    stream: &[u8],
    write_data_checksum: bool,
) -> (r: Result<(), WriteError>)
    ensures
        match r {
            Ok(()) => bytes_descriptor@.len() <= u16::MAX && final(write)@ == old(write)@
                + container_bytes(bytes_descriptor@, stream@, write_data_checksum),
            Err(WriteError::TooLarge) => bytes_descriptor@.len() > u16::MAX && final(write)@ == old(
                write,
            )@,
            Err(_) => false,
        },
{
    if bytes_descriptor.len() > u16::MAX as usize {
        return Err(WriteError::TooLarge);
    }
    let descriptor_len = bytes_descriptor.len() as u16;
    let data_checksum = if write_data_checksum {
        checksum_data(stream)
    } else {
        0
    };
    let unsigned = IyesMeshHeader::sealed(descriptor_len, 0, data_checksum);
    let metadata_checksum = checksum_metadata(unsigned, bytes_descriptor);
    let header = IyesMeshHeader::sealed(descriptor_len, metadata_checksum, data_checksum);
    frame_container(write, &header, bytes_descriptor, stream);
    Ok(())
}

impl<'s> IyesMeshWriter<'s> {
    /// The index format of the shared index buffer.
    pub open spec fn unified(self) -> Option<IndexFormat> {
        unified_index_format(self.meshes())
    }

    /// The bytes of the descriptor that is written for the views.
    pub open spec fn descriptor_bytes(self) -> Seq<u8> {
        let record = written_record(self.meshes(), self.user_bytes().len(), self.unified());
        bitcode_encoded(record.0, record.1, record.2, record.3, record.4)
    }

    /// The uncompressed payload that is written for the views.
    pub open spec fn payload(self) -> Seq<u8> {
        raw_payload(self.meshes(), self.user_bytes(), self.unified())
    }

    /// The payload, compressed; `None` where the compressor reports an
    /// error.
    pub open spec fn stream(self) -> Option<Seq<u8>> {
        payload_stream(self.payload(), self.settings().compression_level)
    }

    /// Whether the views can be written: there are some, they are
    /// compatible, and all counts and lengths fit their fields.
    pub open spec fn fits(self) -> bool {
        &&& self.meshes().len() > 0
        &&& compatible(self.meshes(), self.settings().upconvert_indices)
        &&& within_limits(self.meshes(), self.user_bytes().len(), self.unified())
        &&& self.descriptor_bytes().len() <= u16::MAX
    }

    /// Writes the container of the views and the user data at the end of
    /// `write`, and uses the writer up. Where nothing can be written,
    /// `write` stays as it was.
    pub fn write_to(self, write: &mut Vec<u8>) -> (r: Result<(), WriteError>)
        ensures
            match r {
                Ok(()) => self.fits() && match self.stream() {
                    Some(stream) => final(write)@ == old(write)@ + container_bytes(
                        self.descriptor_bytes(),
                        stream,
                        self.settings().write_data_checksum,
                    ),
                    None => false,
                },
                Err(WriteError::NoMeshes) => self.meshes().len() == 0,
                Err(WriteError::IncompatibleMeshes) => self.meshes().len() > 0 && !compatible(
                    self.meshes(),
                    self.settings().upconvert_indices,
                ),
                Err(WriteError::TooLarge) => self.meshes().len() > 0 && compatible(
                    self.meshes(),
                    self.settings().upconvert_indices,
                ) && !self.fits(),
                Err(WriteError::Io(_)) => self.fits() && self.stream() is None,
                Err(WriteError::InvalidMesh) => false,
            },
            r is Err ==> final(write)@ == old(write)@,
    {
        let (descriptor, payload) = match self.layout() {
            Ok(laid) => laid,
            Err(e) => {
                return Err(e);
            },
        };
        let bytes_descriptor = descriptor.to_bytes();
        if bytes_descriptor.len() > u16::MAX as usize {
            return Err(WriteError::TooLarge);
        }
        let stream = match compress_payload(payload.as_slice(), self.settings.compression_level) {
            Ok(stream) => stream,
            Err(e) => {
                return Err(WriteError::Io(e));
            },
        };
        seal_container(
            write,
            bytes_descriptor.as_slice(),
            stream.as_slice(),
            self.settings.write_data_checksum,
        )
    }
}


} // verus!
