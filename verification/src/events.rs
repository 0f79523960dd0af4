//! Events: of the pipelines, of chats, and as the server sends them to its clients.

use crate::atoms::AtomWithTags;
use vstd::prelude::*;

verus! {

/// A JSON value, as `serde_json` holds it. It is carried through unread.
#[verifier::external_type_specification]
#[verifier::external_body]
pub struct ExJsonValue(serde_json::Value);

/// Copying a JSON value with `serde_json::Value::clone` gives the same value; copying an event
/// copies the values in it.
pub assume_specification[ <serde_json::Value as Clone>::clone ](v: &serde_json::Value) -> (r:
    serde_json::Value)
    ensures
        r == *v,
;

/// A chat message with what it draws on, carried through as one value.
#[derive(Debug, Clone)]
pub struct ChatMessageWithContext {
    pub value: serde_json::Value,
}

/// What happens in the pipeline that embeds and tags atoms.
#[derive(Debug, Clone)]
pub enum EmbeddingEvent {
    Started { atom_id: String },
    EmbeddingComplete { atom_id: String },
    EmbeddingFailed { atom_id: String, error: String },
    TaggingComplete {
        atom_id: String,
        tags_extracted: Vec<String>,
        new_tags_created: Vec<String>,
    },
    TaggingFailed { atom_id: String, error: String },
    TaggingSkipped { atom_id: String },
    BatchProgress { batch_id: String, phase: String, completed: usize, total: usize },
    PipelineQueueStarted { run_id: String, total_jobs: usize, embedding_total: usize },
    PipelineQueueProgress { run_id: String, stage: String, completed: usize, total: usize },
    PipelineQueueCompleted { run_id: String, total_jobs: usize, failed_jobs: usize },
}

/// What happens when pages and feeds are taken in.
#[derive(Debug, Clone)]
pub enum IngestionEvent {
    FetchStarted { url: String, request_id: String },
    FetchComplete { url: String, request_id: String, content_length: usize },
    FetchFailed { url: String, request_id: String, error: String },
    Skipped { url: String, request_id: String, reason: String },
    IngestionComplete { request_id: String, atom_id: String, url: String, title: String },
    IngestionFailed { request_id: String, url: String, error: String },
    FeedPollComplete { feed_id: String, new_items: i32, skipped: i32, errors: i32 },
    FeedPollFailed { feed_id: String, error: String },
}

/// What happens in a chat.
#[derive(Debug, Clone)]
pub enum ChatEvent {
    StreamDelta { conversation_id: String, content: String },
    ToolStart {
        conversation_id: String,
        tool_call_id: String,
        tool_name: String,
        tool_input: serde_json::Value,
    },
    ToolComplete { conversation_id: String, tool_call_id: String, results_count: i32 },
    Complete { conversation_id: String, message: ChatMessageWithContext },
    CanvasAction { conversation_id: String, action: String, params: serde_json::Value },
    AtomCreated { conversation_id: String, atom: AtomWithTags },
    AtomUpdated { conversation_id: String, atom: AtomWithTags },
    AtomPipelineEvent { conversation_id: String, event: EmbeddingEvent },
    Error { conversation_id: String, error: String },
}

/// Events broadcast to the clients of the server.
#[derive(Debug, Clone)]
#[allow(inconsistent_fields)]
pub enum ServerEvent {
    EmbeddingStarted { atom_id: String },
    EmbeddingComplete { atom_id: String },
    EmbeddingFailed { atom_id: String, error: String },
    TaggingComplete {
        atom_id: String,
        tags_extracted: Vec<String>,
        new_tags_created: Vec<String>,
    },
    TaggingFailed { atom_id: String, error: String },
    TaggingSkipped { atom_id: String },
    BatchProgress { batch_id: String, phase: String, completed: usize, total: usize },
    PipelineQueueStarted { run_id: String, total_jobs: usize, embedding_total: usize },
    PipelineQueueProgress { run_id: String, stage: String, completed: usize, total: usize },
    PipelineQueueCompleted { run_id: String, total_jobs: usize, failed_jobs: usize },
    EventsLagged { skipped: u64 },
    AtomCreated { atom: AtomWithTags },
    AtomUpdated { atom: AtomWithTags },
    /// The pointer to the featured report changed; without an id it was cleared.
    DashboardFeaturedChanged { report_id: Option<String> },
    ImportProgress { current: i32, total: i32, current_file: String, status: String },
    IngestionFetchStarted { url: String, request_id: String },
    IngestionFetchComplete { url: String, request_id: String, content_length: usize },
    IngestionFetchFailed { url: String, request_id: String, error: String },
    IngestionSkipped { url: String, request_id: String, reason: String },
    IngestionComplete { request_id: String, atom_id: String, url: String, title: String },
    IngestionFailed { request_id: String, url: String, error: String },
    FeedPollComplete { feed_id: String, new_items: i32, skipped: i32, errors: i32 },
    FeedPollFailed { feed_id: String, error: String },
    ChatStreamDelta { conversation_id: String, content: String },
    ChatToolStart {
        conversation_id: String,
        tool_call_id: String,
        tool_name: String,
        tool_input: serde_json::Value,
    },
    ChatToolComplete { conversation_id: String, tool_call_id: String, results_count: i32 },
    ChatComplete { conversation_id: String, message: ChatMessageWithContext },
    ChatCanvasAction { conversation_id: String, action: String, params: serde_json::Value },
    ChatError { conversation_id: String, error: String },
}

/// What the server sends when something happens in the pipeline.
pub open spec fn server_event_of(event: EmbeddingEvent) -> ServerEvent {
    match event {
        EmbeddingEvent::Started { atom_id } => ServerEvent::EmbeddingStarted { atom_id },
        EmbeddingEvent::EmbeddingComplete { atom_id } => {
            ServerEvent::EmbeddingComplete { atom_id }
        },
        EmbeddingEvent::EmbeddingFailed { atom_id, error } => {
            ServerEvent::EmbeddingFailed { atom_id, error }
        },
        EmbeddingEvent::TaggingComplete { atom_id, tags_extracted, new_tags_created } => {
            ServerEvent::TaggingComplete { atom_id, tags_extracted, new_tags_created }
        },
        EmbeddingEvent::TaggingFailed { atom_id, error } => {
            ServerEvent::TaggingFailed { atom_id, error }
        },
        EmbeddingEvent::TaggingSkipped { atom_id } => ServerEvent::TaggingSkipped { atom_id },
        EmbeddingEvent::BatchProgress { batch_id, phase, completed, total } => {
            ServerEvent::BatchProgress { batch_id, phase, completed, total }
        },
        EmbeddingEvent::PipelineQueueStarted { run_id, total_jobs, embedding_total } => {
            ServerEvent::PipelineQueueStarted { run_id, total_jobs, embedding_total }
        },
        EmbeddingEvent::PipelineQueueProgress { run_id, stage, completed, total } => {
            ServerEvent::PipelineQueueProgress { run_id, stage, completed, total }
        },
        EmbeddingEvent::PipelineQueueCompleted { run_id, total_jobs, failed_jobs } => {
            ServerEvent::PipelineQueueCompleted { run_id, total_jobs, failed_jobs }
        },
    }
}

impl From<EmbeddingEvent> for ServerEvent {
    fn from(event: EmbeddingEvent) -> (r: ServerEvent) {
        match event {
            EmbeddingEvent::Started { atom_id } => ServerEvent::EmbeddingStarted { atom_id },
            EmbeddingEvent::EmbeddingComplete { atom_id } => {
                ServerEvent::EmbeddingComplete { atom_id }
            },
            EmbeddingEvent::EmbeddingFailed { atom_id, error } => {
                ServerEvent::EmbeddingFailed { atom_id, error }
            },
            EmbeddingEvent::TaggingComplete { atom_id, tags_extracted, new_tags_created } => {
                ServerEvent::TaggingComplete { atom_id, tags_extracted, new_tags_created }
            },
            EmbeddingEvent::TaggingFailed { atom_id, error } => {
                ServerEvent::TaggingFailed { atom_id, error }
            },
            EmbeddingEvent::TaggingSkipped { atom_id } => ServerEvent::TaggingSkipped { atom_id },
            EmbeddingEvent::BatchProgress { batch_id, phase, completed, total } => {
                ServerEvent::BatchProgress { batch_id, phase, completed, total }
            },
            EmbeddingEvent::PipelineQueueStarted { run_id, total_jobs, embedding_total } => {
                ServerEvent::PipelineQueueStarted { run_id, total_jobs, embedding_total }
            },
            EmbeddingEvent::PipelineQueueProgress { run_id, stage, completed, total } => {
                ServerEvent::PipelineQueueProgress { run_id, stage, completed, total }
            },
            EmbeddingEvent::PipelineQueueCompleted { run_id, total_jobs, failed_jobs } => {
                ServerEvent::PipelineQueueCompleted { run_id, total_jobs, failed_jobs }
            },
        }
    }
}

impl vstd::std_specs::convert::FromSpecImpl<EmbeddingEvent> for ServerEvent {
    open spec fn obeys_from_spec() -> bool {
        true
    }

    open spec fn from_spec(event: EmbeddingEvent) -> ServerEvent {
        server_event_of(event)
    }
}

/// What the server sends when something happens while pages and feeds are taken in.
pub open spec fn server_event_of_ingestion(event: IngestionEvent) -> ServerEvent {
    match event {
        IngestionEvent::FetchStarted { url, request_id } => {
            ServerEvent::IngestionFetchStarted { url, request_id }
        },
        IngestionEvent::FetchComplete { url, request_id, content_length } => {
            ServerEvent::IngestionFetchComplete { url, request_id, content_length }
        },
        IngestionEvent::FetchFailed { url, request_id, error } => {
            ServerEvent::IngestionFetchFailed { url, request_id, error }
        },
        IngestionEvent::Skipped { url, request_id, reason } => {
            ServerEvent::IngestionSkipped { url, request_id, reason }
        },
        IngestionEvent::IngestionComplete { request_id, atom_id, url, title } => {
            ServerEvent::IngestionComplete { request_id, atom_id, url, title }
        },
        IngestionEvent::IngestionFailed { request_id, url, error } => {
            ServerEvent::IngestionFailed { request_id, url, error }
        },
        IngestionEvent::FeedPollComplete { feed_id, new_items, skipped, errors } => {
            ServerEvent::FeedPollComplete { feed_id, new_items, skipped, errors }
        },
        IngestionEvent::FeedPollFailed { feed_id, error } => {
            ServerEvent::FeedPollFailed { feed_id, error }
        },
    }
}

impl From<IngestionEvent> for ServerEvent {
    fn from(event: IngestionEvent) -> (r: ServerEvent) {
        match event {
            IngestionEvent::FetchStarted { url, request_id } => {
                ServerEvent::IngestionFetchStarted { url, request_id }
            },
            IngestionEvent::FetchComplete { url, request_id, content_length } => {
                ServerEvent::IngestionFetchComplete { url, request_id, content_length }
            },
            IngestionEvent::FetchFailed { url, request_id, error } => {
                ServerEvent::IngestionFetchFailed { url, request_id, error }
            },
            IngestionEvent::Skipped { url, request_id, reason } => {
                ServerEvent::IngestionSkipped { url, request_id, reason }
            },
            IngestionEvent::IngestionComplete { request_id, atom_id, url, title } => {
                ServerEvent::IngestionComplete { request_id, atom_id, url, title }
            },
            IngestionEvent::IngestionFailed { request_id, url, error } => {
                ServerEvent::IngestionFailed { request_id, url, error }
            },
            IngestionEvent::FeedPollComplete { feed_id, new_items, skipped, errors } => {
                ServerEvent::FeedPollComplete { feed_id, new_items, skipped, errors }
            },
            IngestionEvent::FeedPollFailed { feed_id, error } => {
                ServerEvent::FeedPollFailed { feed_id, error }
            },
        }
    }
}

impl vstd::std_specs::convert::FromSpecImpl<IngestionEvent> for ServerEvent {
    open spec fn obeys_from_spec() -> bool {
        true
    }

    open spec fn from_spec(event: IngestionEvent) -> ServerEvent {
        server_event_of_ingestion(event)
    }
}

/// What the server sends when something happens in a chat. What happens to an atom there is sent as
/// it would be outside of a chat, and what happens in the pipeline as it would be there.
pub open spec fn server_event_of_chat(event: ChatEvent) -> ServerEvent {
    match event {
        ChatEvent::StreamDelta { conversation_id, content } => {
            ServerEvent::ChatStreamDelta { conversation_id, content }
        },
        ChatEvent::ToolStart { conversation_id, tool_call_id, tool_name, tool_input } => {
            ServerEvent::ChatToolStart { conversation_id, tool_call_id, tool_name, tool_input }
        },
        ChatEvent::ToolComplete { conversation_id, tool_call_id, results_count } => {
            ServerEvent::ChatToolComplete { conversation_id, tool_call_id, results_count }
        },
        ChatEvent::Complete { conversation_id, message } => {
            ServerEvent::ChatComplete { conversation_id, message }
        },
        ChatEvent::CanvasAction { conversation_id, action, params } => {
            ServerEvent::ChatCanvasAction { conversation_id, action, params }
        },
        ChatEvent::AtomCreated { conversation_id: _, atom } => ServerEvent::AtomCreated { atom },
        ChatEvent::AtomUpdated { conversation_id: _, atom } => ServerEvent::AtomUpdated { atom },
        ChatEvent::AtomPipelineEvent { conversation_id: _, event } => server_event_of(event),
        ChatEvent::Error { conversation_id, error } => {
            ServerEvent::ChatError { conversation_id, error }
        },
    }
}

impl From<ChatEvent> for ServerEvent {
    fn from(event: ChatEvent) -> (r: ServerEvent) {
        match event {
            ChatEvent::StreamDelta { conversation_id, content } => {
                ServerEvent::ChatStreamDelta { conversation_id, content }
            },
            ChatEvent::ToolStart { conversation_id, tool_call_id, tool_name, tool_input } => {
                ServerEvent::ChatToolStart { conversation_id, tool_call_id, tool_name, tool_input }
            },
            ChatEvent::ToolComplete { conversation_id, tool_call_id, results_count } => {
                ServerEvent::ChatToolComplete { conversation_id, tool_call_id, results_count }
            },
            ChatEvent::Complete { conversation_id, message } => {
                ServerEvent::ChatComplete { conversation_id, message }
            },
            ChatEvent::CanvasAction { conversation_id, action, params } => {
                ServerEvent::ChatCanvasAction { conversation_id, action, params }
            },
            ChatEvent::AtomCreated { conversation_id: _, atom } => ServerEvent::AtomCreated { atom },
            ChatEvent::AtomUpdated { conversation_id: _, atom } => ServerEvent::AtomUpdated { atom },
            ChatEvent::AtomPipelineEvent { conversation_id: _, event } => ServerEvent::from(event),
            ChatEvent::Error { conversation_id, error } => {
                ServerEvent::ChatError { conversation_id, error }
            },
        }
    }
}

impl vstd::std_specs::convert::FromSpecImpl<ChatEvent> for ServerEvent {
    open spec fn obeys_from_spec() -> bool {
        true
    }

    open spec fn from_spec(event: ChatEvent) -> ServerEvent {
        server_event_of_chat(event)
    }
}

/// What the clients are told of the pipeline is what happened, of the atom or the run that it
/// happened to.
pub proof fn law_pipeline_events_are_told_as_they_are(event: EmbeddingEvent)
    ensures
        match server_event_of(event) {
            ServerEvent::EmbeddingStarted { atom_id } => event == (EmbeddingEvent::Started {
                atom_id,
            }),
            ServerEvent::EmbeddingComplete { atom_id } => event
                == (EmbeddingEvent::EmbeddingComplete { atom_id }),
            ServerEvent::EmbeddingFailed { atom_id, error } => event
                == (EmbeddingEvent::EmbeddingFailed { atom_id, error }),
            ServerEvent::TaggingComplete { atom_id, tags_extracted, new_tags_created } => event
                == (EmbeddingEvent::TaggingComplete { atom_id, tags_extracted, new_tags_created }),
            ServerEvent::TaggingFailed { atom_id, error } => event
                == (EmbeddingEvent::TaggingFailed { atom_id, error }),
            ServerEvent::TaggingSkipped { atom_id } => event == (EmbeddingEvent::TaggingSkipped {
                atom_id,
            }),
            ServerEvent::BatchProgress { batch_id, phase, completed, total } => event
                == (EmbeddingEvent::BatchProgress { batch_id, phase, completed, total }),
            ServerEvent::PipelineQueueStarted { run_id, total_jobs, embedding_total } => event
                == (EmbeddingEvent::PipelineQueueStarted { run_id, total_jobs, embedding_total }),
            ServerEvent::PipelineQueueProgress { run_id, stage, completed, total } => event
                == (EmbeddingEvent::PipelineQueueProgress { run_id, stage, completed, total }),
            ServerEvent::PipelineQueueCompleted { run_id, total_jobs, failed_jobs } => event
                == (EmbeddingEvent::PipelineQueueCompleted { run_id, total_jobs, failed_jobs }),
            _ => false,
        },
{
}

/// What the clients are told while pages and feeds are taken in is what happened, of the page or
/// the feed that it happened to.
pub proof fn law_ingestion_events_are_told_as_they_are(event: IngestionEvent)
    ensures
        match server_event_of_ingestion(event) {
            ServerEvent::IngestionFetchStarted { url, request_id } => event
                == (IngestionEvent::FetchStarted { url, request_id }),
            ServerEvent::IngestionFetchComplete { url, request_id, content_length } => event
                == (IngestionEvent::FetchComplete { url, request_id, content_length }),
            ServerEvent::IngestionFetchFailed { url, request_id, error } => event
                == (IngestionEvent::FetchFailed { url, request_id, error }),
            ServerEvent::IngestionSkipped { url, request_id, reason } => event
                == (IngestionEvent::Skipped { url, request_id, reason }),
            ServerEvent::IngestionComplete { request_id, atom_id, url, title } => event
                == (IngestionEvent::IngestionComplete { request_id, atom_id, url, title }),
            ServerEvent::IngestionFailed { request_id, url, error } => event
                == (IngestionEvent::IngestionFailed { request_id, url, error }),
            ServerEvent::FeedPollComplete { feed_id, new_items, skipped, errors } => event
                == (IngestionEvent::FeedPollComplete { feed_id, new_items, skipped, errors }),
            ServerEvent::FeedPollFailed { feed_id, error } => event
                == (IngestionEvent::FeedPollFailed { feed_id, error }),
            _ => false,
        },
{
}

/// What the clients are told of a chat is what happened, of the conversation that it happened in;
/// what happened to an atom is told without the conversation.
pub proof fn law_chat_events_are_told_as_they_are(event: ChatEvent)
    ensures
        event matches ChatEvent::AtomPipelineEvent { event: inner, .. } ==> server_event_of_chat(
            event,
        ) == server_event_of(inner),
        !(event is AtomPipelineEvent) ==> match server_event_of_chat(event) {
            ServerEvent::ChatStreamDelta { conversation_id, content } => event
                == (ChatEvent::StreamDelta { conversation_id, content }),
            ServerEvent::ChatToolStart { conversation_id, tool_call_id, tool_name, tool_input }
                => event == (ChatEvent::ToolStart {
                conversation_id,
                tool_call_id,
                tool_name,
                tool_input,
            }),
            ServerEvent::ChatToolComplete { conversation_id, tool_call_id, results_count } => event
                == (ChatEvent::ToolComplete { conversation_id, tool_call_id, results_count }),
            ServerEvent::ChatComplete { conversation_id, message } => event
                == (ChatEvent::Complete { conversation_id, message }),
            ServerEvent::ChatCanvasAction { conversation_id, action, params } => event
                == (ChatEvent::CanvasAction { conversation_id, action, params }),
            ServerEvent::AtomCreated { atom } => event matches ChatEvent::AtomCreated {
                atom: a,
                ..
            } && a == atom,
            ServerEvent::AtomUpdated { atom } => event matches ChatEvent::AtomUpdated {
                atom: a,
                ..
            } && a == atom,
            ServerEvent::ChatError { conversation_id, error } => event == (ChatEvent::Error {
                conversation_id,
                error,
            }),
            _ => false,
        },
{
}

} // verus!
