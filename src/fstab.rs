use vstd::prelude::*;

use crate::text::{chars_of, clone_strings, pieces, split_pieces, strings_view, Separator};

verus! {

/// One static mount specification (a line of the mount configuration).
#[derive(Debug)]
pub struct Fstab {
    /// A device path, or a `UUID=` / `LABEL=` qualifier.
    pub device: String,
    pub mount_point: String,
    pub fs_type: String,
    pub options: Vec<String>,
    pub dump_freq: i32,
    pub fsck_pass: i32,
}

/// Mathematical form of a static mount specification.
pub struct FstabView {
    pub device: Seq<char>,
    pub mount_point: Seq<char>,
    pub fs_type: Seq<char>,
    pub options: Seq<Seq<char>>,
    pub dump_freq: i32,
    pub fsck_pass: i32,
}

impl View for Fstab {
    type V = FstabView;

    open spec fn view(&self) -> FstabView {
        FstabView {
            device: self.device@,
            mount_point: self.mount_point@,
            fs_type: self.fs_type@,
            options: strings_view(self.options@),
            dump_freq: self.dump_freq,
            fsck_pass: self.fsck_pass,
        }
    }
}

impl Clone for Fstab {
    fn clone(&self) -> (r: Self)
        ensures
            r@ == self@,
    {
        Fstab {
            device: self.device.clone(),
            mount_point: self.mount_point.clone(),
            fs_type: self.fs_type.clone(),
            options: clone_strings(&self.options),
            dump_freq: self.dump_freq,
            fsck_pass: self.fsck_pass,
        }
    }
}

impl Fstab {
    /// Builds a record from the fields of one configuration line; the options
    /// field is split at every comma, empty pieces included.
    pub fn from_fields(
        device: String,
        mount_point: String,
        fs_type: String,
        options: &str,
        dump_freq: i32,
        fsck_pass: i32,
    ) -> (r: Self)
        ensures
            r@ == (FstabView {
                device: device@,
                mount_point: mount_point@,
                fs_type: fs_type@,
                options: pieces(options@, Separator::Comma),
                dump_freq,
                fsck_pass,
            }),
    {
        let chars = chars_of(options);
        let options = split_pieces(&chars, Separator::Comma);
        Fstab { device, mount_point, fs_type, options, dump_freq, fsck_pass }
    }
}

/// All static mount specifications, in configuration order.
#[derive(Debug)]
pub struct FstabInfo {
    pub info: Vec<Fstab>,
}

} // verus!
