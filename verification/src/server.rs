//! Registering the first admin of a server with a setup secret that can
//! be used once.

use vstd::prelude::*;
use crate::config::{appended, ConfigModel, CulperConfig, UserModel};
use crate::errors::CulperError;
use crate::text::same_text;

verus! {

/// What a new admin sends to register: their address and their public
/// key.
#[derive(Debug, Clone, PartialEq, Eq)]
pub struct SetupData {
    pub email: String,
    pub pubkey: String,
}

/// How a registration ended.
#[derive(Debug, Clone, Copy, PartialEq, Eq, Structural)]
pub enum SetupState {
    Success,
    Failure,
}

/// The setup secret of a server: present until the first admin has
/// registered with it.
#[derive(Debug, PartialEq, Eq)]
pub struct SetupToken {
    secret: Option<String>,
}

/// Whether an offer is the secret: nothing is while the secret is used
/// up, and no offer is.
pub open spec fn is_secret(secret: Option<Seq<char>>, offered: Option<Seq<char>>) -> bool {
    match (secret, offered) {
        (Some(s), Some(o)) => s == o,
        _ => false,
    }
}

/// The text of an offer.
pub open spec fn offer_text(offered: Option<&str>) -> Option<Seq<char>> {
    match offered {
        Some(o) => Some(o@),
        None => None,
    }
}

impl SetupToken {
    /// The secret, while it has not been used.
    pub closed spec fn secret(&self) -> Option<Seq<char>> {
        match self.secret {
            Some(s) => Some(s@),
            None => None,
        }
    }

    /// A token that holds `secret`, if one is given.
    pub fn new(secret: Option<String>) -> (token: SetupToken)
        ensures
            token.secret() == match secret {
                Some(s) => Some(s@),
                None => None,
            },
    {
        SetupToken { secret }
    }

    /// Whether `offered` is the secret. Nothing matches a token that was
    /// used, and no offer matches at all.
    pub fn accepts(&self, offered: Option<&str>) -> (accepted: bool)
        ensures
            accepted == is_secret(self.secret(), offer_text(offered)),
    {
        match (&self.secret, offered) {
            (Some(secret), Some(header)) => same_text(secret.as_str(), header),
            _ => false,
        }
    }

    /// Uses the token up.
    pub fn clear(&mut self)
        ensures
            final(self).secret() is None,
    {
        self.secret = None;
    }
}

/// The configuration with the registered admin added, once the import of
/// their key gave its identifier; a failed import is reported with its
/// cause.
pub fn update_culperconfig_with_admin(
    config: CulperConfig,
    admin: &SetupData,
    imported: Result<String, CulperError>,
) -> (res: Result<CulperConfig, CulperError>)
    ensures
        match imported {
            Ok(key_id) => res matches Ok(after) && after@ == (ConfigModel {
                admins: appended(config@.admins, UserModel { id: key_id@, email: admin.email@ }),
                ..config@
            }),
            Err(cause) => res matches Err(CulperError::RuntimeError(m)) && m@
                == "Could not import gpg key. Error: "@ + cause.described(),
        },
{
    match imported {
        Ok(val) => {
            let mut config = config;
            config.add_admin(admin.email.as_str(), val.as_str());
            Ok(config)
        },
        Err(cause) => Err(
            CulperError::RuntimeError(
                String::from_str("Could not import gpg key. Error: ").concat(
                    cause.describe().as_str(),
                ),
            ),
        ),
    }
}

/// Registers an admin who offers `offered` as the setup secret.
///
/// Where the offer is the secret, `update` is run to record the admin,
/// and once it has succeeded the secret is used up: a second registration
/// with it fails. Where `update` fails its failure is handed on and the
/// secret stays. Any other offer fails and changes nothing.
pub fn register_admin<U>(token: &mut SetupToken, offered: Option<&str>, update: U) -> (res: Result<
    SetupState,
    CulperError,
>) where U: FnOnce() -> Result<(), CulperError>
    requires
        call_requires(update, ()),
    ensures
        if is_secret(old(token).secret(), offer_text(offered)) {
            match res {
                Ok(state) => state == SetupState::Success && final(token).secret() is None
                    && call_ensures(update, (), Ok::<(), CulperError>(())),
                Err(e) => final(token).secret() == old(token).secret() && call_ensures(
                    update,
                    (),
                    Err::<(), CulperError>(e),
                ),
            }
        } else {
            res == Ok::<SetupState, CulperError>(SetupState::Failure) && final(token).secret() == old(
                token,
            ).secret()
        },
{
    if token.accepts(offered) {
        let outcome = update();
        match outcome {
            Ok(done) => {
                assert(outcome == Ok::<(), CulperError>(()));
                token.clear();
                Ok(SetupState::Success)
            },
            Err(e) => Err(e),
        }
    } else {
        Ok(SetupState::Failure)
    }
}

} // verus!
