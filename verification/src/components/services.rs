//! Starting the services that a job asks for.

use vstd::prelude::*;
use vstd::string::StringExecFns;
use crate::ast::{CommandView, Statement, StatementView, echoed};
use crate::components::git::shown;
use crate::payload::{Payload, PayloadView};
use crate::text::same_text;

verus! {

/// The name under which the system knows a service. A few services are
/// asked for under a shorter name than their own.
pub open spec fn normalized(service: Seq<char>) -> Seq<char> {
    if service == "hbase"@ {
        "hbase-master"@
    } else if service == "memcache"@ {
        "memcached"@
    } else if service == "neo4j-server"@ {
        "neo4j"@
    } else if service == "rabbitmq"@ {
        "rabbitmq-server"@
    } else if service == "redis"@ {
        "redis-server"@
    } else {
        service
    }
}

/// The step that starts one service.
pub open spec fn start_service(service: Seq<char>) -> StatementView {
    StatementView::Cmd(
        CommandView::Raw("sudo service "@ + normalized(service) + " start"@),
        shown(),
    )
}

/// The steps that start the services of a job, in the order in which the
/// job names them.
pub open spec fn start_services(payload: PayloadView) -> StatementView {
    StatementView::Statements(
        Seq::new(
            payload.config.services.len(),
            |i: int| start_service(payload.config.services[i]),
        ),
    )
}

/// The name under which the system knows a service.
pub fn normalize_service(service: String) -> (name: String)
    ensures
        name@ == normalized(service@),
{
    if same_text(service.as_str(), "hbase") {
        String::from_str("hbase-master")
    } else if same_text(service.as_str(), "memcache") {
        String::from_str("memcached")
    } else if same_text(service.as_str(), "neo4j-server") {
        String::from_str("neo4j")
    } else if same_text(service.as_str(), "rabbitmq") {
        String::from_str("rabbitmq-server")
    } else if same_text(service.as_str(), "redis") {
        String::from_str("redis-server")
    } else {
        service
    }
}

/// The steps that start the services of a job.
pub fn start_services_ast(payload: &Payload) -> (script: Statement)
    ensures
        script@ == start_services(payload@),
        script@.well_formed(),
{
    let services = &payload.config.services;
    let mut steps: Vec<Statement> = Vec::new();
    for i in 0..services.len()
        invariant
            services == &payload.config.services,
            steps@.len() == i,
            forall|j: int| 0 <= j < i ==> steps@[j]@ == start_service(#[trigger] services@[j]@),
    {
        let mut start = String::from_str("sudo service ");
        start.append(normalize_service(services[i].clone()).as_str());
        start.append(" start");
        steps.push(Statement::raw(start, echoed()));
    }
    let script = Statement::block(steps);
    proof {
        assert(script@->Statements_0 =~= start_services(payload@)->Statements_0);
        let children = script@->Statements_0;
        assert forall|i: int| 0 <= i < children.len() implies (
        #[trigger] children[i]).well_formed() by {}
    }
    script
}

} // verus!
