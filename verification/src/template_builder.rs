//! A builder of the raw bytes of a template deployment.

use vstd::prelude::*;
use vstd::utf8::encode_utf8;
use crate::bytes::{
    be_bytes_u16, be_bytes_u32, be_bytes_u64, write_u16_be, write_u32_be, write_u64_be, write_u8,
};

verus! {

/// The raw bytes of the deployment of a template: the version as four
/// big-endian bytes, the length of the name as one byte and the name, no
/// admins and no dependencies as two big-endian bytes each, the page count
/// as two big-endian bytes, and the length of the code as eight big-endian
/// bytes and the code.
pub open spec fn template_bytes(version: u32, name: Seq<char>, page_count: u16, code: Seq<u8>) -> Seq<
    u8,
> {
    be_bytes_u32(version) + seq![encode_utf8(name).len() as u8] + encode_utf8(name) + be_bytes_u16(0)
        + be_bytes_u16(0) + be_bytes_u16(page_count) + be_bytes_u64(code.len() as u64) + code
}

/// Builds the raw bytes of the deployment of a template.
pub struct AppTemplateBuilder {
    version: Option<u32>,
    name: Option<String>,
    page_count: Option<u16>,
    code: Option<Vec<u8>>,
}

impl AppTemplateBuilder {
    /// The version, if it was given.
    pub closed spec fn version(&self) -> Option<u32> {
        self.version
    }

    /// The name, if it was given.
    pub closed spec fn name(&self) -> Option<Seq<char>> {
        match self.name {
            Some(name) => Some(name@),
            None => None,
        }
    }

    /// The page count, if it was given.
    pub closed spec fn page_count(&self) -> Option<u16> {
        self.page_count
    }

    /// The code, if it was given.
    pub closed spec fn code(&self) -> Option<Seq<u8>> {
        match self.code {
            Some(code) => Some(code@),
            None => None,
        }
    }

    /// Tells whether everything was given that the raw bytes are made of,
    /// and the name takes no more than 255 bytes.
    pub open spec fn complete(&self) -> bool {
        &&& self.version() is Some
        &&& self.name() is Some
        &&& self.page_count() is Some
        &&& self.code() is Some
        &&& encode_utf8(self.name().unwrap()).len() <= 255
    }

    /// Tells whether everything was given that the raw bytes are made of,
    /// and the name takes no more than 255 bytes.
    pub fn is_complete(&self) -> (r: bool)
        ensures
            r == self.complete(),
    {
        match &self.name {
            Some(name) => self.version.is_some() && self.page_count.is_some()
                && self.code.is_some() && name.as_str().as_bytes().len() <= 255,
            None => false,
        }
    }

    /// A builder to which nothing was given yet.
    pub fn new() -> (builder: Self)
        ensures
            builder.version() is None,
            builder.name() is None,
            builder.page_count() is None,
            builder.code() is None,
    {
        AppTemplateBuilder { version: None, name: None, page_count: None, code: None }
    }

    /// The builder with the version `version`.
    pub fn with_version(self, version: u32) -> (builder: Self)
        ensures
            builder.version() == Some(version),
            builder.name() == self.name(),
            builder.page_count() == self.page_count(),
            builder.code() == self.code(),
    {
        AppTemplateBuilder { version: Some(version), ..self }
    }

    /// The builder with the name `name`.
    pub fn with_name(self, name: &str) -> (builder: Self)
        ensures
            builder.version() == self.version(),
            builder.name() == Some(name@),
            builder.page_count() == self.page_count(),
            builder.code() == self.code(),
    {
        AppTemplateBuilder { name: Some(name.to_owned()), ..self }
    }

    /// The builder with the page count `page_count`.
    pub fn with_page_count(self, page_count: u16) -> (builder: Self)
        ensures
            builder.version() == self.version(),
            builder.name() == self.name(),
            builder.page_count() == Some(page_count),
            builder.code() == self.code(),
    {
        AppTemplateBuilder { page_count: Some(page_count), ..self }
    }

    /// The builder with the code `code`.
    pub fn with_code(self, code: &[u8]) -> (builder: Self)
        ensures
            builder.version() == self.version(),
            builder.name() == self.name(),
            builder.page_count() == self.page_count(),
            builder.code() == Some(code@),
    {
        AppTemplateBuilder { code: Some(vstd::slice::slice_to_vec(code)), ..self }
    }

    /// The raw bytes of the deployment. The name is handed over and is no
    /// longer in the builder afterwards.
    pub fn build(&mut self) -> (buf: Vec<u8>)
        requires
            old(self).complete(),
        ensures
            buf@ == template_bytes(
                old(self).version().unwrap(),
                old(self).name().unwrap(),
                old(self).page_count().unwrap(),
                old(self).code().unwrap(),
            ),
            final(self).version() == old(self).version(),
            final(self).name() is None,
            final(self).page_count() == old(self).page_count(),
            final(self).code() == old(self).code(),
    {
        let mut buf: Vec<u8> = Vec::new();
        self.write_version(&mut buf);
        self.write_name(&mut buf);
        self.write_admins(&mut buf);
        self.write_deps(&mut buf);
        self.write_page_count(&mut buf);
        self.write_code(&mut buf);
        assert(buf@ =~= template_bytes(
            old(self).version().unwrap(),
            old(self).name().unwrap(),
            old(self).page_count().unwrap(),
            old(self).code().unwrap(),
        ));
        buf
    }

    fn write_version(&self, buf: &mut Vec<u8>)
        requires
            self.version() is Some,
        ensures
            final(buf)@ == old(buf)@ + be_bytes_u32(self.version().unwrap()),
    {
        let version: u32 = self.version.unwrap();
        write_u32_be(buf, version);
    }

    fn write_name(&mut self, buf: &mut Vec<u8>)
        requires
            old(self).name() is Some,
            encode_utf8(old(self).name().unwrap()).len() <= 255,
        ensures
            final(buf)@ == old(buf)@ + seq![encode_utf8(old(self).name().unwrap()).len() as u8]
                + encode_utf8(old(self).name().unwrap()),
            final(self).version() == old(self).version(),
            final(self).name() is None,
            final(self).page_count() == old(self).page_count(),
            final(self).code() == old(self).code(),
    {
        let name: String = self.name.take().unwrap();
        let bytes: &[u8] = name.as_str().as_bytes();
        write_u8(buf, bytes.len() as u8);
        let ghost with_len = buf@;
        buf.extend_from_slice(bytes);
        assert(buf@ =~= with_len + bytes@);
    }

    fn write_admins(&self, buf: &mut Vec<u8>)
        ensures
            final(buf)@ == old(buf)@ + be_bytes_u16(0),
    {
        write_u16_be(buf, 0);
    }

    fn write_deps(&self, buf: &mut Vec<u8>)
        ensures
            final(buf)@ == old(buf)@ + be_bytes_u16(0),
    {
        write_u16_be(buf, 0);
    }

    fn write_page_count(&self, buf: &mut Vec<u8>)
        requires
            self.page_count() is Some,
        ensures
            final(buf)@ == old(buf)@ + be_bytes_u16(self.page_count().unwrap()),
    {
        let pages: u16 = self.page_count.unwrap();
        write_u16_be(buf, pages);
    }

    fn write_code(&self, buf: &mut Vec<u8>)
        requires
            self.code() is Some,
        ensures
            final(buf)@ == old(buf)@ + be_bytes_u64(self.code().unwrap().len() as u64)
                + self.code().unwrap(),
    {
        match &self.code {
            Some(code) => {
                write_u64_be(buf, code.len() as u64);
                let ghost with_len = buf@;
                buf.extend_from_slice(code.as_slice());
                assert(buf@ =~= with_len + code@);
            },
            None => {},
        }
    }
}

} // verus!
