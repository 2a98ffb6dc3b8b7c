//! One named store: an in-memory buffer of updates and the bookkeeping for
//! its on-disk file image.
use vstd::prelude::*;
use crate::codec::{
    dec_batch, flush_image, spec_file, spec_file_count, spec_flush,
};
use crate::update::{views_of, Update, UpdateModel};

verus! {

/// A named collection of updates. `size` is the count the client sees:
/// the buffer length while the store is in memory, the on-disk header
/// count otherwise.
pub struct Store {
    pub name: String,
    pub folder: String,
    pub in_memory: bool,
    pub size: u64,
    pub v: Vec<Update>,
}

/// The model of a [`Store`].
pub ghost struct StoreModel {
    pub name: Seq<char>,
    pub folder: Seq<char>,
    pub in_memory: bool,
    pub size: u64,
    pub v: Seq<UpdateModel>,
}

impl View for Store {
    type V = StoreModel;

    open spec fn view(&self) -> StoreModel {
        StoreModel {
            name: self.name@,
            folder: self.folder@,
            in_memory: self.in_memory,
            size: self.size,
            v: views_of(self.v@),
        }
    }
}

impl StoreModel {
    /// Every buffered update is well-formed.
    pub open spec fn wf(self) -> bool {
        forall|i: int| 0 <= i < self.v.len() ==> (#[trigger] self.v[i]).wf()
    }
}

/// The count an optional file image reports; a missing image counts zero.
pub open spec fn spec_opt_count(f: Option<Seq<u8>>) -> u64 {
    match f {
        Some(b) => spec_file_count(b),
        None => 0,
    }
}

/// What loading does to a store: nothing when the store is already in
/// memory; with no file behind it, the buffer as it stands becomes
/// authoritative; otherwise the whole image becomes the buffer. `None`
/// when the image cannot be read.
pub open spec fn spec_load(st: StoreModel, f: Option<Seq<u8>>) -> Option<StoreModel> {
    match f {
        None => {
            if st.in_memory {
                Some(st)
            } else {
                Some(StoreModel { size: st.v.len() as u64, in_memory: true, ..st })
            }
        },
        Some(b) => {
            if st.in_memory {
                Some(st)
            } else {
                match dec_batch(b) {
                    None => None,
                    Some(us) => Some(
                        StoreModel { v: us, size: us.len() as u64, in_memory: true, ..st },
                    ),
                }
            }
        },
    }
}

impl Store {
    pub open spec fn wf(self) -> bool {
        self@.wf()
    }

    /// An empty store that does not yet mirror any file.
    pub fn new_store(name: String, folder: String) -> (r: Store)
        ensures
            r@ == (StoreModel {
                name: name@,
                folder: folder@,
                in_memory: false,
                size: 0,
                v: Seq::<UpdateModel>::empty(),
            }),
            r.wf(),
    {
        let r = Store { name, folder, in_memory: false, size: 0, v: Vec::new() };
        proof {
            assert(views_of(r.v@) =~= Seq::<UpdateModel>::empty());
        }
        r
    }

    /// Appends one update to the buffer and counts it.
    pub fn add(&mut self, u: Update)
        requires
            old(self).size < u64::MAX,
            old(self).wf(),
            u.wf(),
        ensures
            final(self)@ == (StoreModel {
                size: (old(self)@.size + 1) as u64,
                v: old(self)@.v.push(u@),
                ..old(self)@
            }),
            final(self).wf(),
    {
        self.size = self.size + 1;
        proof {
            assert(views_of(self.v@.push(u)) =~= views_of(self.v@).push(u@));
        }
        self.v.push(u);
    }

    /// The new file image a flush of this store produces: a fresh image of
    /// the buffer when no file exists, otherwise the old records followed
    /// by the strictly-newer part of the buffer. The buffer is not
    /// drained. `None` when the existing image cannot be read.
    pub fn flush(&self, file: &Option<Vec<u8>>) -> (r: Option<Vec<u8>>)
        requires
            self.wf(),
        ensures
            r is Some <==> spec_flush(spec_file(file), self@.v) is Some,
            r is Some ==> r->0@ == spec_flush(spec_file(file), self@.v)->0,
    {
        proof {
            assert forall|i: int| 0 <= i < self.v@.len() implies (#[trigger] self.v@[i]).wf() by {
                assert(self@.v[i] == self.v@[i]@);
            }
        }
        flush_image(file, &self.v)
    }

    /// Reads the whole file image into the buffer, unless the store is
    /// already in memory. A store with no file behind it becomes
    /// authoritative in memory as it stands. Returns false and leaves the
    /// store unchanged when the image cannot be read.
    pub fn load(&mut self, file: &Option<Vec<u8>>) -> (ok: bool)
        requires
            old(self).wf(),
        ensures
            ok <==> spec_load(old(self)@, spec_file(file)) is Some,
            ok ==> final(self)@ == spec_load(old(self)@, spec_file(file))->0,
            !ok ==> final(self)@ == old(self)@,
            final(self).wf(),
    {
        match file {
            None => {
                if !self.in_memory {
                    self.size = self.v.len() as u64;
                    self.in_memory = true;
                }
                true
            },
            Some(b) => {
                if self.in_memory {
                    true
                } else {
                    match crate::codec::decode_batch(b) {
                        None => false,
                        Some(us) => {
                            let n = us.len();
                            self.v = us;
                            self.size = n as u64;
                            self.in_memory = true;
                            true
                        },
                    }
                }
            },
        }
    }

    /// Reads the header count of the file image into `size`; a missing
    /// image counts zero. The buffer is untouched.
    pub fn load_size_from_file(&mut self, file: &Option<Vec<u8>>)
        requires
            old(self).wf(),
        ensures
            final(self)@ == (StoreModel { size: spec_opt_count(spec_file(file)), ..old(self)@ }),
            final(self).wf(),
    {
        match file {
            None => {
                self.size = 0;
            },
            Some(b) => {
                self.size = crate::codec::file_count(b);
            },
        }
    }

    /// Empties the buffer, drops the in-memory mark, and refreshes `size`
    /// from the file image.
    pub fn clear(&mut self, file: &Option<Vec<u8>>)
        requires
            old(self).wf(),
        ensures
            final(self)@ == (StoreModel {
                v: Seq::<UpdateModel>::empty(),
                in_memory: false,
                size: spec_opt_count(spec_file(file)),
                ..old(self)@
            }),
            final(self).wf(),
    {
        self.v.clear();
        self.in_memory = false;
        proof {
            assert(views_of(self.v@) =~= Seq::<UpdateModel>::empty());
        }
        self.load_size_from_file(file);
    }
}

} // verus!
