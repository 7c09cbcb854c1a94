//! Request structs for the books handlers of the sample route table.

use vstd::prelude::*;

use crate::matching::{uuid_str, uuid_to_string};

verus! {

/// Renders for `POST /books`.
#[derive(Debug, PartialEq, Eq)]
pub struct Create {
    pub lang: Option<String>,
}

impl Create {
    /// Make a path to this route with the given parameters.
    pub fn to_path(&self) -> (r: String)
        ensures
            r@ == "/books"@,
    {
        "/books".to_owned()
    }
}

/// Renders for `DELETE /books/{id}`.
#[derive(Debug, PartialEq, Eq)]
pub struct Destroy {
    pub id: u128,
    pub lang: Option<String>,
}

impl Destroy {
    /// Make a path to this route with the given parameters.
    pub fn to_path(&self) -> (r: String)
        ensures
            r@ == "/books/"@ + uuid_str(self.id),
    {
        let mut s = "/books/".to_owned();
        let t = uuid_to_string(self.id);
        s.append(t.as_str());
        s
    }
}

/// Renders for `GET /books/{id}/edit`.
#[derive(Debug, PartialEq, Eq)]
pub struct Edit {
    pub id: u128,
    pub lang: Option<String>,
}

impl Edit {
    /// Make a path to this route with the given parameters.
    pub fn to_path(&self) -> (r: String)
        ensures
            r@ == "/books/"@ + uuid_str(self.id) + "/edit"@,
    {
        let mut s = "/books/".to_owned();
        let t = uuid_to_string(self.id);
        s.append(t.as_str());
        s.append("/edit");
        s
    }
}

/// Renders for `GET /books`.
#[derive(Debug, PartialEq, Eq)]
pub struct Index {
    pub lang: Option<String>,
}

impl Index {
    /// Make a path to this route with the given parameters.
    pub fn to_path(&self) -> (r: String)
        ensures
            r@ == "/books"@,
    {
        "/books".to_owned()
    }
}

/// Renders for `GET /books/new`.
#[derive(Debug, PartialEq, Eq)]
pub struct New {
    pub lang: Option<String>,
}

impl New {
    /// Make a path to this route with the given parameters.
    pub fn to_path(&self) -> (r: String)
        ensures
            r@ == "/books/new"@,
    {
        "/books/new".to_owned()
    }
}

/// Renders for `GET /books/{id}`.
#[derive(Debug, PartialEq, Eq)]
pub struct Show {
    pub id: u128,
    pub lang: Option<String>,
}

impl Show {
    /// Make a path to this route with the given parameters.
    pub fn to_path(&self) -> (r: String)
        ensures
            r@ == "/books/"@ + uuid_str(self.id),
    {
        let mut s = "/books/".to_owned();
        let t = uuid_to_string(self.id);
        s.append(t.as_str());
        s
    }
}

/// Renders for `PUT /books/{id}`.
#[derive(Debug, PartialEq, Eq)]
pub struct Update {
    pub id: u128,
    pub lang: Option<String>,
}

impl Update {
    /// Make a path to this route with the given parameters.
    pub fn to_path(&self) -> (r: String)
        ensures
            r@ == "/books/"@ + uuid_str(self.id),
    {
        let mut s = "/books/".to_owned();
        let t = uuid_to_string(self.id);
        s.append(t.as_str());
        s
    }
}

/// Parameters for requests to the books controller.
#[derive(Debug, PartialEq, Eq)]
pub enum Route {
    Create(Create),
    Destroy(Destroy),
    Edit(Edit),
    Index(Index),
    New(New),
    Show(Show),
    Update(Update),
}

impl Route {
    /// Make a path to this route with the given parameters.
    pub fn to_path(&self) -> (r: String)
        ensures
            r@ == (match self {
                Route::Create(_) => "/books"@,
                Route::Destroy(x) => "/books/"@ + uuid_str(x.id),
                Route::Edit(x) => "/books/"@ + uuid_str(x.id) + "/edit"@,
                Route::Index(_) => "/books"@,
                Route::New(_) => "/books/new"@,
                Route::Show(x) => "/books/"@ + uuid_str(x.id),
                Route::Update(x) => "/books/"@ + uuid_str(x.id),
            }),
    {
        match self {
            Route::Create(x) => x.to_path(),
            Route::Destroy(x) => x.to_path(),
            Route::Edit(x) => x.to_path(),
            Route::Index(x) => x.to_path(),
            Route::New(x) => x.to_path(),
            Route::Show(x) => x.to_path(),
            Route::Update(x) => x.to_path(),
        }
    }
}

} // verus!
