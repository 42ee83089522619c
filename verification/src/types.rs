//! The value-like records that cross the command boundary, the rows the
//! store holds, and their mathematical views.

use vstd::prelude::*;

verus! {

/// A chat message as submitted and returned across the command boundary.
#[derive(Debug)]
pub struct Message {
    pub id: String,
    pub role: String,
    pub content: String,
}

/// A project row. Timestamps are milliseconds since the Unix epoch.
#[derive(Debug)]
pub struct Project {
    pub id: String,
    pub name: String,
    pub description: Option<String>,
    pub project_type: String,
    pub active_agents: String,
    pub current_code: Option<String>,
    pub visibility: String,
    pub user_id: String,
    pub created_at: u64,
    pub updated_at: u64,
}

/// A project together with its ordered messages, as `load_project` returns it.
#[derive(Debug)]
pub struct ProjectWithMessages {
    pub id: String,
    pub name: String,
    pub description: Option<String>,
    pub project_type: String,
    pub active_agents: String,
    pub current_code: Option<String>,
    pub visibility: String,
    pub user_id: String,
    pub created_at: u64,
    pub updated_at: u64,
    pub messages: Vec<Message>,
}

/// The request that saves a project: without `project_id` a new project is
/// created; with it, an existing project is updated in place.
#[derive(Debug)]
pub struct SaveProjectRequest {
    pub project_id: Option<String>,
    pub name: String,
    pub project_type: String,
    pub active_agents: String,
    pub messages: Vec<Message>,
    pub current_code: Option<String>,
}

/// The typed settings object reconstructed from the key/value rows.
#[derive(Debug)]
pub struct Settings {
    pub anthropic_api_key: Option<String>,
    pub theme: String,
    pub auto_save: bool,
    pub default_project_path: String,
}

/// A stored message row, owned by exactly one project.
#[derive(Debug)]
pub struct MessageRecord {
    pub id: String,
    pub role: String,
    pub content: String,
    pub project_id: String,
    pub created_at: u64,
}

/// A stored settings row; keys are unique.
#[derive(Debug)]
pub struct SettingRecord {
    pub key: String,
    pub value: String,
    pub updated_at: u64,
}

/// A stored user row; the store holds a single fixed local user with the
/// default plan and token quota.
#[derive(Debug)]
pub struct UserRecord {
    pub id: String,
    pub name: String,
    pub email: String,
    pub plan: String,
    pub token_balance: u64,
}

/// The singleton credential row.
#[derive(Debug)]
pub struct CredentialRecord {
    pub api_key: String,
    pub email: Option<String>,
    pub subscription_tier: Option<String>,
    pub last_validated: u64,
}

/// The credentials that the resolver works with, wherever they came from.
#[derive(Debug)]
pub struct ClaudeCredentials {
    pub api_key: String,
    pub email: Option<String>,
    pub subscription_tier: Option<String>,
}

/// The view of a credential value.
#[verifier::ext_equal]
pub ghost struct ClaudeCredentialsV {
    pub api_key: Seq<char>,
    pub email: Option<Seq<char>>,
    pub subscription_tier: Option<Seq<char>>,
}

impl View for ClaudeCredentials {
    type V = ClaudeCredentialsV;

    open spec fn view(&self) -> ClaudeCredentialsV {
        ClaudeCredentialsV {
            api_key: self.api_key@,
            email: opt_view(self.email),
            subscription_tier: opt_view(self.subscription_tier),
        }
    }
}

/// A store operation could not do its work: the entity was absent, or a
/// generated identifier collided with an existing row and the insert was
/// refused rather than overwrite.
#[derive(Debug, Clone, Copy, PartialEq, Eq, Structural)]
pub enum StoreError {
    NotFound,
    Conflict,
}

#[verifier::ext_equal]
pub ghost struct MessageV {
    pub id: Seq<char>,
    pub role: Seq<char>,
    pub content: Seq<char>,
}

#[verifier::ext_equal]
pub ghost struct ProjectV {
    pub id: Seq<char>,
    pub name: Seq<char>,
    pub description: Option<Seq<char>>,
    pub project_type: Seq<char>,
    pub active_agents: Seq<char>,
    pub current_code: Option<Seq<char>>,
    pub visibility: Seq<char>,
    pub user_id: Seq<char>,
    pub created_at: u64,
    pub updated_at: u64,
}

#[verifier::ext_equal]
pub ghost struct ProjectWithMessagesV {
    pub project: ProjectV,
    pub messages: Seq<MessageV>,
}

#[verifier::ext_equal]
pub ghost struct SaveProjectRequestV {
    pub project_id: Option<Seq<char>>,
    pub name: Seq<char>,
    pub project_type: Seq<char>,
    pub active_agents: Seq<char>,
    pub messages: Seq<MessageV>,
    pub current_code: Option<Seq<char>>,
}

#[verifier::ext_equal]
pub ghost struct SettingsV {
    pub anthropic_api_key: Option<Seq<char>>,
    pub theme: Seq<char>,
    pub auto_save: bool,
    pub default_project_path: Seq<char>,
}

#[verifier::ext_equal]
pub ghost struct MessageRecordV {
    pub id: Seq<char>,
    pub role: Seq<char>,
    pub content: Seq<char>,
    pub project_id: Seq<char>,
    pub created_at: u64,
}

#[verifier::ext_equal]
pub ghost struct SettingV {
    pub key: Seq<char>,
    pub value: Seq<char>,
    pub updated_at: u64,
}

#[verifier::ext_equal]
pub ghost struct UserV {
    pub id: Seq<char>,
    pub name: Seq<char>,
    pub email: Seq<char>,
    pub plan: Seq<char>,
    pub token_balance: u64,
}

#[verifier::ext_equal]
pub ghost struct CredentialV {
    pub api_key: Seq<char>,
    pub email: Option<Seq<char>>,
    pub subscription_tier: Option<Seq<char>>,
    pub last_validated: u64,
}

/// The view of an optional owned string.
pub open spec fn opt_view(o: Option<String>) -> Option<Seq<char>> {
    match o {
        Some(s) => Some(s@),
        None => None,
    }
}

impl View for Message {
    type V = MessageV;

    open spec fn view(&self) -> MessageV {
        MessageV { id: self.id@, role: self.role@, content: self.content@ }
    }
}

impl View for Project {
    type V = ProjectV;

    open spec fn view(&self) -> ProjectV {
        ProjectV {
            id: self.id@,
            name: self.name@,
            description: opt_view(self.description),
            project_type: self.project_type@,
            active_agents: self.active_agents@,
            current_code: opt_view(self.current_code),
            visibility: self.visibility@,
            user_id: self.user_id@,
            created_at: self.created_at,
            updated_at: self.updated_at,
        }
    }
}

impl View for ProjectWithMessages {
    type V = ProjectWithMessagesV;

    open spec fn view(&self) -> ProjectWithMessagesV {
        ProjectWithMessagesV {
            project: ProjectV {
                id: self.id@,
                name: self.name@,
                description: opt_view(self.description),
                project_type: self.project_type@,
                active_agents: self.active_agents@,
                current_code: opt_view(self.current_code),
                visibility: self.visibility@,
                user_id: self.user_id@,
                created_at: self.created_at,
                updated_at: self.updated_at,
            },
            messages: self.messages@.map_values(|m: Message| m@),
        }
    }
}

impl View for SaveProjectRequest {
    type V = SaveProjectRequestV;

    open spec fn view(&self) -> SaveProjectRequestV {
        SaveProjectRequestV {
            project_id: opt_view(self.project_id),
            name: self.name@,
            project_type: self.project_type@,
            active_agents: self.active_agents@,
            messages: self.messages@.map_values(|m: Message| m@),
            current_code: opt_view(self.current_code),
        }
    }
}

impl View for Settings {
    type V = SettingsV;

    open spec fn view(&self) -> SettingsV {
        SettingsV {
            anthropic_api_key: opt_view(self.anthropic_api_key),
            theme: self.theme@,
            auto_save: self.auto_save,
            default_project_path: self.default_project_path@,
        }
    }
}

impl View for MessageRecord {
    type V = MessageRecordV;

    open spec fn view(&self) -> MessageRecordV {
        MessageRecordV {
            id: self.id@,
            role: self.role@,
            content: self.content@,
            project_id: self.project_id@,
            created_at: self.created_at,
        }
    }
}

impl View for SettingRecord {
    type V = SettingV;

    open spec fn view(&self) -> SettingV {
        SettingV { key: self.key@, value: self.value@, updated_at: self.updated_at }
    }
}

impl View for UserRecord {
    type V = UserV;

    open spec fn view(&self) -> UserV {
        UserV {
            id: self.id@,
            name: self.name@,
            email: self.email@,
            plan: self.plan@,
            token_balance: self.token_balance,
        }
    }
}

impl View for CredentialRecord {
    type V = CredentialV;

    open spec fn view(&self) -> CredentialV {
        CredentialV {
            api_key: self.api_key@,
            email: opt_view(self.email),
            subscription_tier: opt_view(self.subscription_tier),
            last_validated: self.last_validated,
        }
    }
}

/// Copies an optional string.
pub fn clone_opt_string(o: &Option<String>) -> (r: Option<String>)
    ensures
        r == *o,
{
    match o {
        Some(s) => Some(s.clone()),
        None => None,
    }
}


impl StoreError {
    /// A short human-readable description of the error.
    pub fn message(&self) -> (r: &'static str)
        ensures
            *self == StoreError::NotFound ==> r@ == "not found"@,
            *self == StoreError::Conflict ==> r@ == "id conflict"@,
    {
        match self {
            StoreError::NotFound => "not found",
            StoreError::Conflict => "id conflict",
        }
    }
}

} // verus!
