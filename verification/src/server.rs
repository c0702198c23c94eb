//! The server: the engine it serves, where it listens, and the service that
//! answers each kind of request.

use crate::engine::FurDB;
use crate::operations::{
    answers_create_database, answers_create_table, answers_delete_database,
    answers_delete_entries, answers_delete_table, answers_get_database, answers_get_entries,
    answers_get_server_info, answers_get_table, answers_insert_entries,
};
use crate::proto::{
    CreateDatabaseRequest, CreateTableRequest, DatabaseCreatedResponse, DatabaseDeletedResponse,
    DatabaseInfoResponse, DeleteDatabaseRequest, DeleteEntriesRequest, DeleteTableRequest,
    EntriesCreatedResponse, EntriesDeletedResponse, EntriesResultResponse, GetDatabaseRequest,
    GetEntriesRequest, GetServerInfoRequest, GetTableRequest, InsertEntriesRequest,
    ServerInfoResponse, TableCreatedResponse, TableDeletedResponse, TableInfoResponse,
};
use crate::response::ErrorResponse;
use vstd::prelude::*;

verus! {

/// Where the server listens.
pub struct ServerConfig {
    pub port: u16,
}

/// A server: its configuration and the engine it serves.
pub struct Server {
    server_config: ServerConfig,
    furdb: FurDB,
}

impl Server {
    pub closed spec fn port(&self) -> u16 {
        self.server_config.port
    }

    pub closed spec fn engine(&self) -> FurDB {
        self.furdb
    }

    pub fn new(server_config: ServerConfig, furdb: FurDB) -> (server: Self)
        ensures
            server.port() == server_config.port,
            server.engine() == furdb,
    {
        Self { server_config, furdb }
    }

    /// The port the server listens on.
    pub fn get_port(&self) -> (port: u16)
        ensures
            port == self.port(),
    {
        self.server_config.port
    }

    /// The service that answers this server's requests.
    pub fn into_service(self) -> (service: FurDbService)
        ensures
            service.engine() == self.engine(),
    {
        FurDbService::new(self.furdb)
    }
}

/// Answers each kind of request from the engine it holds.
pub struct FurDbService {
    furdb: FurDB,
}

impl FurDbService {
    pub closed spec fn engine(&self) -> FurDB {
        self.furdb
    }

    pub fn new(furdb: FurDB) -> (service: Self)
        ensures
            service.engine() == furdb,
    {
        Self { furdb }
    }

    /// The engine, as it stands after the requests answered so far.
    pub fn get_engine(&self) -> (furdb: &FurDB)
        ensures
            *furdb == self.engine(),
    {
        &self.furdb
    }

    pub fn get_server_info(&self, request: GetServerInfoRequest) -> (r: Result<
        ServerInfoResponse,
        ErrorResponse,
    >)
        ensures
            answers_get_server_info(self.engine().workdir(), r),
    {
        crate::operations::get_server_info(&self.furdb, request)
    }

    pub fn create_database(&mut self, request: CreateDatabaseRequest) -> (r: Result<
        DatabaseCreatedResponse,
        ErrorResponse,
    >)
        ensures
            final(self).engine().workdir() == old(self).engine().workdir(),
            answers_create_database(old(self).engine()@, request, final(self).engine()@, r),
    {
        crate::operations::create_database(&mut self.furdb, request)
    }

    pub fn get_database(&self, request: GetDatabaseRequest) -> (r: Result<
        DatabaseInfoResponse,
        ErrorResponse,
    >)
        ensures
            answers_get_database(self.engine()@, request, r),
    {
        crate::operations::get_database(&self.furdb, request)
    }

    pub fn delete_database(&mut self, request: DeleteDatabaseRequest) -> (r: Result<
        DatabaseDeletedResponse,
        ErrorResponse,
    >)
        ensures
            final(self).engine().workdir() == old(self).engine().workdir(),
            answers_delete_database(old(self).engine()@, request, final(self).engine()@, r),
    {
        crate::operations::delete_database(&mut self.furdb, request)
    }

    pub fn create_table(&mut self, request: CreateTableRequest) -> (r: Result<
        TableCreatedResponse,
        ErrorResponse,
    >)
        ensures
            final(self).engine().workdir() == old(self).engine().workdir(),
            answers_create_table(old(self).engine()@, request, final(self).engine()@, r),
    {
        crate::operations::create_table(&mut self.furdb, request)
    }

    pub fn get_table(&self, request: GetTableRequest) -> (r: Result<
        TableInfoResponse,
        ErrorResponse,
    >)
        ensures
            answers_get_table(self.engine()@, request, r),
    {
        crate::operations::get_table(&self.furdb, request)
    }

    pub fn delete_table(&mut self, request: DeleteTableRequest) -> (r: Result<
        TableDeletedResponse,
        ErrorResponse,
    >)
        ensures
            final(self).engine().workdir() == old(self).engine().workdir(),
            answers_delete_table(old(self).engine()@, request, final(self).engine()@, r),
    {
        crate::operations::delete_table(&mut self.furdb, request)
    }

    pub fn insert_entries(&mut self, request: InsertEntriesRequest) -> (r: Result<
        EntriesCreatedResponse,
        ErrorResponse,
    >)
        ensures
            final(self).engine().workdir() == old(self).engine().workdir(),
            answers_insert_entries(old(self).engine()@, request, final(self).engine()@, r),
    {
        crate::operations::insert_entries(&mut self.furdb, request)
    }

    pub fn get_entries(&self, request: GetEntriesRequest) -> (r: Result<
        EntriesResultResponse,
        ErrorResponse,
    >)
        ensures
            answers_get_entries(self.engine()@, request, r),
    {
        crate::operations::get_entries(&self.furdb, request)
    }

    pub fn delete_entries(&mut self, request: DeleteEntriesRequest) -> (r: Result<
        EntriesDeletedResponse,
        ErrorResponse,
    >)
        ensures
            final(self).engine().workdir() == old(self).engine().workdir(),
            answers_delete_entries(old(self).engine()@, request, final(self).engine()@, r),
    {
        crate::operations::delete_entries(&mut self.furdb, request)
    }
}

} // verus!
