//! The records that client and server exchange and store: requests for
//! fragment transfers, file attributes and file entries, and devices.
#![allow(non_snake_case)]
#![allow(non_camel_case_types)]

use vstd::prelude::*;

use crate::text::chars_of;
use crate::text::string_of;

verus! {

/// Request kind: a device is to send a fragment it holds to the server.
pub const REQUEST_UPLOAD: i32 = 1;

/// Request kind: the server is to send a fragment to a device.
pub const REQUEST_DOWNLOAD: i32 = 2;

/// Request kind: a device is to delete a fragment it holds.
pub const REQUEST_DELETE: i32 = 3;

/// An entry of the server's request table: `type_` says what is to happen to
/// fragment `fragmentId` on device `deviceId`.
#[derive(Clone, Copy)]
pub struct RequestItem {
    id: i32,
    type_: i32,
    fragmentId: i32,
    deviceId: i32,
}

/// The contents of a [`RequestItem`].
pub struct RequestView {
    pub id: i32,
    pub type_: i32,
    pub fragment_id: i32,
    pub device_id: i32,
}

impl View for RequestItem {
    type V = RequestView;

    closed spec fn view(&self) -> RequestView {
        RequestView {
            id: self.id,
            type_: self.type_,
            fragment_id: self.fragmentId,
            device_id: self.deviceId,
        }
    }
}

impl RequestItem {
    /// A request with every field given.
    pub fn init(id: i32, type_: i32, fid: i32, did: i32) -> (r: Self)
        ensures
            r@ == (RequestView { id, type_, fragment_id: fid, device_id: did }),
    {
        RequestItem { id, type_, fragmentId: fid, deviceId: did }
    }

    /// A request not yet stored, whose id is 0 until the table assigns one.
    pub fn init_2(type_: i32, fid: i32, did: i32) -> (r: Self)
        ensures
            r@ == (RequestView { id: 0, type_, fragment_id: fid, device_id: did }),
    {
        RequestItem { id: 0, type_, fragmentId: fid, deviceId: did }
    }

    pub fn get_id(&mut self) -> (r: i32)
        ensures
            r == old(self)@.id,
            final(self)@ == old(self)@,
    {
        self.id
    }

    pub fn get_type(&mut self) -> (r: i32)
        ensures
            r == old(self)@.type_,
            final(self)@ == old(self)@,
    {
        self.type_
    }

    pub fn set_type(&mut self, type_: i32)
        ensures
            final(self)@ == (RequestView { type_, ..old(self)@ }),
    {
        self.type_ = type_;
    }

    pub fn get_fragment_id(&mut self) -> (r: i32)
        ensures
            r == old(self)@.fragment_id,
            final(self)@ == old(self)@,
    {
        self.fragmentId
    }

    pub fn set_fragment_id(&mut self, fragmentId: i32)
        ensures
            final(self)@ == (RequestView { fragment_id: fragmentId, ..old(self)@ }),
    {
        self.fragmentId = fragmentId;
    }

    pub fn get_device_id(&mut self) -> (r: i32)
        ensures
            r == old(self)@.device_id,
            final(self)@ == old(self)@,
    {
        self.deviceId
    }

    pub fn set_device_id(&mut self, id: i32)
        ensures
            final(self)@ == (RequestView { device_id: id, ..old(self)@ }),
    {
        self.deviceId = id;
    }

    /// Whether this request asks for exactly `kind` on fragment `fid`; the data
    /// connection refuses a transfer that names any other request.
    pub fn matches(&self, fid: i32, kind: i32) -> (b: bool)
        ensures
            b == (self@.fragment_id == fid && self@.type_ == kind),
    {
        !(self.fragmentId != fid || self.type_ != kind)
    }
}

/// A request as the web front end records it: where a device can be reached
/// and which fragment of which file it is about.
pub struct AnotherRequestItem {
    ip: String,
    port: String,
    file_name: String,
    file_type_: String,
    file_size: i32,
    fragment_id: i32,
}

/// The contents of an [`AnotherRequestItem`].
pub struct AnotherRequestView {
    pub ip: Seq<char>,
    pub port: Seq<char>,
    pub file_name: Seq<char>,
    pub file_type_: Seq<char>,
    pub file_size: i32,
    pub fragment_id: i32,
}

impl View for AnotherRequestItem {
    type V = AnotherRequestView;

    closed spec fn view(&self) -> AnotherRequestView {
        AnotherRequestView {
            ip: self.ip@,
            port: self.port@,
            file_name: self.file_name@,
            file_type_: self.file_type_@,
            file_size: self.file_size,
            fragment_id: self.fragment_id,
        }
    }
}

impl AnotherRequestItem {
    pub fn init(
        ip: String,
        port: String,
        file_name: String,
        file_type_: String,
        file_size: i32,
        fragment_id: i32,
    ) -> (r: Self)
        ensures
            r@ == (AnotherRequestView {
                ip: ip@,
                port: port@,
                file_name: file_name@,
                file_type_: file_type_@,
                file_size,
                fragment_id,
            }),
    {
        AnotherRequestItem { ip, port, file_name, file_type_, file_size, fragment_id }
    }

    pub fn get_ip(&mut self) -> (r: String)
        ensures
            r@ == old(self)@.ip,
            final(self)@ == old(self)@,
    {
        self.ip.clone()
    }

    pub fn get_file_type_(&mut self) -> (r: String)
        ensures
            r@ == old(self)@.file_type_,
            final(self)@ == old(self)@,
    {
        self.file_type_.clone()
    }

    pub fn get_fragment_id(&mut self) -> (r: i32)
        ensures
            r == old(self)@.fragment_id,
            final(self)@ == old(self)@,
    {
        self.fragment_id
    }

    /// A fresh copy of the port, built character by character.
    pub fn get_port(&self) -> (r: String)
        ensures
            r@ == self@.port,
    {
        let chars = chars_of(self.port.as_str());
        string_of(chars.as_slice())
    }

    pub fn set_port(&mut self, port: String)
        ensures
            final(self)@ == (AnotherRequestView { port: port@, ..old(self)@ }),
    {
        self.port = port;
    }

    /// A fresh copy of the file name, built character by character.
    pub fn get_file_name(&self) -> (r: String)
        ensures
            r@ == self@.file_name,
    {
        let chars = chars_of(self.file_name.as_str());
        string_of(chars.as_slice())
    }

    pub fn set_file_name(&mut self, file_name: String)
        ensures
            final(self)@ == (AnotherRequestView { file_name: file_name@, ..old(self)@ }),
    {
        self.file_name = file_name;
    }
}

/// What the client tells the server about a file it registers: its name, the
/// folder it lies in, its access attributes and its number of fragments.
pub struct FileAttrs {
    pub name: String,
    pub path: String,
    pub attr: String,
    pub noa: i32,
}

impl FileAttrs {
    pub fn init(name: String, path: String, attr: String, noa: i32) -> (r: Self)
        ensures
            r.name@ == name@,
            r.path@ == path@,
            r.attr@ == attr@,
            r.noa == noa,
    {
        FileAttrs { name, path, attr, noa }
    }
}

/// Helpers on the local fragment folder; the folder walks themselves are
/// file-system work.
pub struct FileUtil {}

impl FileUtil {
    pub fn new() -> (r: FileUtil)
        ensures
            r == (FileUtil {}),
    {
        FileUtil {  }
    }
}

/// The server process.
pub struct DFS_server {
    pub connecting: bool,
}

/// An entry of the server's file table. `noa` is the file's number of
/// fragments; while an upload is still incomplete it holds the negated count.
#[derive(Clone)]
pub struct FileItem {
    pub id: i32,
    pub name: String,
    pub path: String,
    pub attr: String,
    pub time: String,
    pub noa: i32,
    pub is_folder: bool,
}

impl FileItem {
    /// A file entry not yet stored, whose id is 0 until the table assigns one.
    pub fn init_2(
        name: String,
        path: String,
        attr: String,
        time: String,
        noa: i32,
        is_folder: bool,
    ) -> (r: Self)
        ensures
            r.id == 0,
            r.name@ == name@,
            r.path@ == path@,
            r.attr@ == attr@,
            r.time@ == time@,
            r.noa == noa,
            r.is_folder == is_folder,
    {
        FileItem { id: 0, name, path, attr, time, noa, is_folder }
    }
}

/// An entry of the server's device table.
pub struct DeviceItem {
    pub id: i32,
    pub ip: String,
    pub port: i32,
    pub is_online: bool,
    pub rs: i32,
    pub time: i32,
    pub leftrs: i32,
}

impl DeviceItem {
    /// The same device, marked offline.
    pub fn offline(self) -> (r: Self)
        ensures
            r == (DeviceItem { is_online: false, ..self }),
    {
        DeviceItem { is_online: false, ..self }
    }
}

} // verus!
