//! The client product that the gateway serves. Its models, programs, directories and hosts are
//! called after it, so its name is a setting.
use crate::text::concat;
use vstd::prelude::*;

verus! {

/// The name of the client product.
#[derive(Clone, Debug)]
pub struct Client {
    /// As it stands in ids, paths and host names.
    pub name: String,
    /// As it is shown to people.
    pub title: String,
}

#[verifier::ext_equal]
pub struct ClientV {
    pub name: Seq<char>,
    pub title: Seq<char>,
}

impl View for Client {
    type V = ClientV;

    open spec fn view(&self) -> ClientV {
        ClientV { name: self.name@, title: self.title@ }
    }
}

impl ClientV {
    /// The name under which the official mode is shown.
    pub open spec fn official_label(self) -> Seq<char> {
        "官方 "@ + self.title
    }

    /// What the selector of a channel's model starts with.
    pub open spec fn selector_prefix(self) -> Seq<char> {
        self.name + "-csswitch-"@
    }

    /// The client's model in whose place the larger model of the native channel stands.
    pub open spec fn large_model(self) -> Seq<char> {
        self.name + "-opus-4-8"@
    }

    /// The client's model in whose place the smaller model of the native channel stands.
    pub open spec fn small_model(self) -> Seq<char> {
        self.name + "-haiku-4-5"@
    }

    /// The program of the client's daemon.
    pub open spec fn daemon_program(self) -> Seq<char> {
        self.name + "-science"@
    }

    /// The data directory of the client's daemon, below a home directory.
    pub open spec fn daemon_data_dir(self) -> Seq<char> {
        "."@ + self.daemon_program()
    }

    /// The hosts that the client's daemon reaches directly.
    pub open spec fn direct_hosts(self) -> Seq<char> {
        LOCAL_HOSTS@ + (",pubmed.mcp."@ + (self.name + (".com,hcls.mcp."@ + (self.name + (".com,"@ + PACKAGE_HOSTS@)))))
    }

    /// What a request for a synthesis tells the model to do.
    pub open spec fn synthesis_instruction(self) -> Seq<char> {
        SYNTHESIS_START@ + (self.title + SYNTHESIS_END@)
    }
}

pub const LOCAL_HOSTS: &'static str = "127.0.0.1,localhost,::1";

pub const PACKAGE_HOSTS: &'static str = "conda.anaconda.org,repo.anaconda.com,pypi.org,files.pythonhosted.org";

pub const SYNTHESIS_START: &'static str =
    "Based on the real Web Search results above, now answer the original user's request. Do not call the internal search tool again. Use the remaining ";

pub const SYNTHESIS_END: &'static str = " Science tools only if they are genuinely needed.";

impl Client {
    pub fn new(name: &str, title: &str) -> (client: Client)
        ensures
            client@ == (ClientV { name: name@, title: title@ }),
    {
        Client { name: name.to_owned(), title: title.to_owned() }
    }

    /// The name under which the official mode is shown.
    pub fn official_label(&self) -> (label: String)
        ensures
            label@ == self@.official_label(),
    {
        concat("官方 ", self.title.as_str())
    }

    /// What the selector of a channel's model starts with.
    pub fn selector_prefix(&self) -> (prefix: String)
        ensures
            prefix@ == self@.selector_prefix(),
    {
        concat(self.name.as_str(), "-csswitch-")
    }

    /// The client's model in whose place the larger model of the native channel stands.
    pub fn large_model(&self) -> (id: String)
        ensures
            id@ == self@.large_model(),
    {
        concat(self.name.as_str(), "-opus-4-8")
    }

    /// The client's model in whose place the smaller model of the native channel stands.
    pub fn small_model(&self) -> (id: String)
        ensures
            id@ == self@.small_model(),
    {
        concat(self.name.as_str(), "-haiku-4-5")
    }

    /// The program of the client's daemon.
    pub fn daemon_program(&self) -> (program: String)
        ensures
            program@ == self@.daemon_program(),
    {
        concat(self.name.as_str(), "-science")
    }

    /// The data directory of the client's daemon, below a home directory.
    pub fn daemon_data_dir(&self) -> (dir: String)
        ensures
            dir@ == self@.daemon_data_dir(),
    {
        concat(".", self.daemon_program().as_str())
    }

    /// The hosts that the client's daemon reaches directly.
    pub fn direct_hosts(&self) -> (hosts: String)
        ensures
            hosts@ == self@.direct_hosts(),
    {
        let packages = concat(".com,", PACKAGE_HOSTS);
        let second = concat(".com,hcls.mcp.", concat(self.name.as_str(), packages.as_str()).as_str());
        let first = concat(",pubmed.mcp.", concat(self.name.as_str(), second.as_str()).as_str());
        concat(LOCAL_HOSTS, first.as_str())
    }

    /// What a request for a synthesis tells the model to do.
    pub fn synthesis_instruction(&self) -> (text: String)
        ensures
            text@ == self@.synthesis_instruction(),
    {
        concat(SYNTHESIS_START, concat(self.title.as_str(), SYNTHESIS_END).as_str())
    }
}

} // verus!
