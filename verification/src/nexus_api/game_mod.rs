//! The details of one mod, as the API reports them.

use vstd::prelude::*;
use crate::json::Json;
use crate::time::{Timestamp, Wait};

verus! {

/// The response to a request for the details of a mod: the wait that the
/// rate limiter derived from it, and its body.
pub struct ModResponse {
    pub wait: Wait,
    pub json: Json,
}

/// What a mod's details say of it.
#[derive(Debug, Clone, PartialEq)]
pub struct ExtractedModData {
    pub nexus_mod_id: i32,
    pub name: Option<String>,
    pub category_id: Option<i32>,
    pub author_name: String,
    pub author_id: i32,
    pub description: Option<String>,
    pub thumbnail_link: Option<String>,
    pub last_update_at: Timestamp,
    pub first_upload_at: Timestamp,
}

/// What is wrong with a response that does not describe a mod.
#[derive(Debug, Clone, Copy, PartialEq, Eq, Structural)]
pub enum ModDataError {
    MissingModId,
    ModIdNotNumber,
    CategoryIdNotNumber,
    NameNotString,
    DescriptionNotString,
    MissingUser,
    MissingUserName,
    UserNameNotString,
    MissingMemberId,
    MemberIdNotNumber,
    MissingUpdatedTimestamp,
    UpdatedTimestampNotNumber,
    MissingCreatedTimestamp,
    CreatedTimestampNotNumber,
}

/// The low 32 bits of a number, read as a signed number: what an id of the
/// API becomes in a 32-bit column.
pub open spec fn low_32(n: i64) -> i32 {
    ((n + 0x8000_0000) % 0x1_0000_0000 - 0x8000_0000) as i32
}

/// A member that may be absent but must be a string where it is present.
pub open spec fn text_if_present(member: Option<Json>) -> Option<String> {
    match member {
        Some(v) => v.text(),
        None => None,
    }
}

/// What a body says of a mod, or the first thing wrong with it. The
/// members are looked at in a fixed order: `mod_id`, `category_id`, `name`,
/// `description`, `user` with its `name` and `member_id`,
/// `updated_timestamp` and `created_timestamp`. The members `category_id`,
/// `name` and `description` may be absent; `picture_url` may be absent or
/// be no string, and is then left out.
pub open spec fn mod_data_of(body: Json) -> Result<ExtractedModData, ModDataError> {
    let user = body.field("user"@);
    if body.field("mod_id"@) is None {
        Err(ModDataError::MissingModId)
    } else if body.field("mod_id"@)->0.integer() is None {
        Err(ModDataError::ModIdNotNumber)
    } else if body.field("category_id"@) is Some && body.field("category_id"@)->0.integer()
        is None {
        Err(ModDataError::CategoryIdNotNumber)
    } else if body.field("name"@) is Some && body.field("name"@)->0.text() is None {
        Err(ModDataError::NameNotString)
    } else if body.field("description"@) is Some && body.field("description"@)->0.text()
        is None {
        Err(ModDataError::DescriptionNotString)
    } else if user is None {
        Err(ModDataError::MissingUser)
    } else if user->0.field("name"@) is None {
        Err(ModDataError::MissingUserName)
    } else if user->0.field("name"@)->0.text() is None {
        Err(ModDataError::UserNameNotString)
    } else if user->0.field("member_id"@) is None {
        Err(ModDataError::MissingMemberId)
    } else if user->0.field("member_id"@)->0.integer() is None {
        Err(ModDataError::MemberIdNotNumber)
    } else if body.field("updated_timestamp"@) is None {
        Err(ModDataError::MissingUpdatedTimestamp)
    } else if body.field("updated_timestamp"@)->0.integer() is None {
        Err(ModDataError::UpdatedTimestampNotNumber)
    } else if body.field("created_timestamp"@) is None {
        Err(ModDataError::MissingCreatedTimestamp)
    } else if body.field("created_timestamp"@)->0.integer() is None {
        Err(ModDataError::CreatedTimestampNotNumber)
    } else {
        Ok(
            ExtractedModData {
                nexus_mod_id: low_32(body.field("mod_id"@)->0.integer()->0),
                name: text_if_present(body.field("name"@)),
                category_id: match body.field("category_id"@) {
                    Some(v) => Some(low_32(v.integer()->0)),
                    None => None,
                },
                author_name: user->0.field("name"@)->0.text()->0,
                author_id: low_32(user->0.field("member_id"@)->0.integer()->0),
                description: text_if_present(body.field("description"@)),
                thumbnail_link: text_if_present(body.field("picture_url"@)),
                last_update_at: Timestamp {
                    seconds: body.field("updated_timestamp"@)->0.integer()->0,
                    nanos: 0,
                },
                first_upload_at: Timestamp {
                    seconds: body.field("created_timestamp"@)->0.integer()->0,
                    nanos: 0,
                },
            },
        )
    }
}

/// The low 32 bits of a number, read as a signed number.
pub fn truncate_32(n: i64) -> (r: i32)
    ensures
        r == low_32(n),
{
    let r: i32 = #[verifier::truncate]
    (n as i32);
    assert(r == (n + 0x8000_0000) % 0x1_0000_0000 - 0x8000_0000) by (bit_vector)
        requires
            r == n as i32,
    ;
    r
}

/// A number that must be there.
fn required_int(holder: &Json, key: &str, missing: ModDataError, not_number: ModDataError) -> (r:
    Result<i64, ModDataError>)
    ensures
        match r {
            Ok(n) => holder.field(key@) is Some && holder.field(key@)->0.integer() == Some(n),
            Err(e) => if holder.field(key@) is None {
                e == missing
            } else {
                holder.field(key@)->0.integer() is None && e == not_number
            },
        },
{
    match holder.get(key) {
        None => Err(missing),
        Some(v) => match v.as_i64() {
            Some(n) => Ok(n),
            None => Err(not_number),
        },
    }
}

/// A text that may be absent, but must be a string where it is there.
fn optional_text(holder: &Json, key: &str, not_string: ModDataError) -> (r: Result<
    Option<String>,
    ModDataError,
>)
    ensures
        match r {
            Ok(t) => t == text_if_present(holder.field(key@)) && (holder.field(key@) is Some
                ==> t is Some),
            Err(e) => holder.field(key@) is Some && holder.field(key@)->0.text() is None && e
                == not_string,
        },
{
    match holder.get(key) {
        None => Ok(None),
        Some(v) => match v.as_str() {
            Some(s) => Ok(Some(s.clone())),
            None => Err(not_string),
        },
    }
}

impl ModResponse {
    /// What the response says of the mod.
    pub fn extract_data(&self) -> (r: Result<ExtractedModData, ModDataError>)
        ensures
            r == mod_data_of(self.json),
    {
        let body = &self.json;
        let mod_id = required_int(
            body,
            "mod_id",
            ModDataError::MissingModId,
            ModDataError::ModIdNotNumber,
        )?;
        let category_id = match body.get("category_id") {
            None => None,
            Some(v) => match v.as_i64() {
                Some(n) => Some(truncate_32(n)),
                None => {
                    return Err(ModDataError::CategoryIdNotNumber);
                },
            },
        };
        let name = optional_text(body, "name", ModDataError::NameNotString)?;
        let description = optional_text(body, "description", ModDataError::DescriptionNotString)?;
        let thumbnail_link = match body.get("picture_url") {
            None => None,
            Some(v) => match v.as_str() {
                Some(s) => Some(s.clone()),
                None => None,
            },
        };
        let user = match body.get("user") {
            Some(user) => user,
            None => {
                return Err(ModDataError::MissingUser);
            },
        };
        let author_name = match user.get("name") {
            None => {
                return Err(ModDataError::MissingUserName);
            },
            Some(v) => match v.as_str() {
                Some(s) => s.clone(),
                None => {
                    return Err(ModDataError::UserNameNotString);
                },
            },
        };
        let member_id = required_int(
            user,
            "member_id",
            ModDataError::MissingMemberId,
            ModDataError::MemberIdNotNumber,
        )?;
        let updated = required_int(
            body,
            "updated_timestamp",
            ModDataError::MissingUpdatedTimestamp,
            ModDataError::UpdatedTimestampNotNumber,
        )?;
        let created = required_int(
            body,
            "created_timestamp",
            ModDataError::MissingCreatedTimestamp,
            ModDataError::CreatedTimestampNotNumber,
        )?;
        Ok(
            ExtractedModData {
                nexus_mod_id: truncate_32(mod_id),
                name,
                category_id,
                author_name,
                author_id: truncate_32(member_id),
                description,
                thumbnail_link,
                last_update_at: Timestamp { seconds: updated, nanos: 0 },
                first_upload_at: Timestamp { seconds: created, nanos: 0 },
            },
        )
    }
}

} // verus!
