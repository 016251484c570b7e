//! Hooks that observe what an in-memory file store does.

use vstd::prelude::*;

verus! {

/// Observer of the operations of an in-memory file store.
pub trait Trace {
    fn on_open(&mut self, path: &str);

    fn on_open_nonexist(&mut self, path: &str);

    fn on_create(&mut self, path: &str);

    fn on_create_overwrite(&mut self, path: &str, last_content: Option<&Vec<u8>>);

    fn on_write_overwrite(&mut self, path: &str, last_content: Option<&Vec<u8>>) {
        self.on_create_overwrite(path, last_content)
    }
}

/// The observer that records nothing.
#[derive(Debug)]
pub struct NoopTracer;

impl Default for NoopTracer {
    fn default() -> (r: Self) {
        NoopTracer
    }
}

impl Trace for NoopTracer {
    fn on_open(&mut self, _path: &str) {
    }

    fn on_open_nonexist(&mut self, _path: &str) {
    }

    fn on_create(&mut self, _path: &str) {
    }

    fn on_create_overwrite(&mut self, _path: &str, _last_content: Option<&Vec<u8>>) {
    }
}

/// The observers that a store can hold.
#[derive(Debug)]
pub enum Tracer {
    NoopTracer(NoopTracer),
}

impl Default for Tracer {
    fn default() -> (r: Self) {
        Tracer::NoopTracer(NoopTracer)
    }
}

impl Trace for Tracer {
    fn on_open(&mut self, path: &str) {
        match self {
            Tracer::NoopTracer(t) => t.on_open(path),
        }
    }

    fn on_open_nonexist(&mut self, path: &str) {
        match self {
            Tracer::NoopTracer(t) => t.on_open_nonexist(path),
        }
    }

    fn on_create(&mut self, path: &str) {
        match self {
            Tracer::NoopTracer(t) => t.on_create(path),
        }
    }

    fn on_create_overwrite(&mut self, path: &str, last_content: Option<&Vec<u8>>) {
        match self {
            Tracer::NoopTracer(t) => t.on_create_overwrite(path, last_content),
        }
    }
}

} // verus!
