//! Where the secrets of the program are kept, and which of two sources wins.
use vstd::prelude::*;

verus! {

/// The kinds of secret the program uses.
#[derive(Clone, Copy, PartialEq, Eq, Structural, Debug, Hash)]
pub enum KeyType {
    SetlistFmApiKey,
}

/// The keyring service under which all secrets are stored.
pub open spec fn keyring_service() -> Seq<char> {
    "SetlisteR"@
}

/// The keyring user under which a kind of secret is stored.
pub open spec fn keyring_user(key_type: KeyType) -> Seq<char> {
    match key_type {
        KeyType::SetlistFmApiKey => "setlist_fm_api_key"@,
    }
}

/// The environment variable that may hold a kind of secret.
pub open spec fn env_var_name(key_type: KeyType) -> Seq<char> {
    match key_type {
        KeyType::SetlistFmApiKey => "SETLIST_FM_API_KEY"@,
    }
}

impl KeyType {
    /// The keyring service under which this secret is stored.
    pub fn keyring_service(&self) -> (s: String)
        ensures
            s@ == keyring_service(),
    {
        String::from_str("SetlisteR")
    }

    /// The keyring user under which this secret is stored.
    pub fn keyring_user(&self) -> (s: String)
        ensures
            s@ == keyring_user(*self),
    {
        match self {
            KeyType::SetlistFmApiKey => String::from_str("setlist_fm_api_key"),
        }
    }

    /// The environment variable that may hold this secret.
    pub fn env_var_name(&self) -> (s: String)
        ensures
            s@ == env_var_name(*self),
    {
        match self {
            KeyType::SetlistFmApiKey => String::from_str("SETLIST_FM_API_KEY"),
        }
    }
}

/// One secret to store in the system keyring.
pub struct KeyringWrite {
    pub service: String,
    pub user: String,
    pub secret: String,
}

/// Decides where secrets go and where they are read from.
pub struct SecretsManager;

impl SecretsManager {
    pub fn new() -> SecretsManager {
        SecretsManager
    }

    /// The keyring writes that store the given secrets: each under the program's
    /// service and the user of its kind, in the order given.
    pub fn set_keys_from_args(&self, keys: &Vec<(KeyType, String)>) -> (r: Result<Vec<KeyringWrite>, ()>)
        ensures
            match r {
                Ok(writes) => {
                    &&& writes.len() == keys.len()
                    &&& forall|i: int|
                        0 <= i < keys.len() ==> {
                            &&& (#[trigger] writes@[i]).service@ == keyring_service()
                            &&& writes@[i].user@ == keyring_user(keys@[i].0)
                            &&& writes@[i].secret@ == keys@[i].1@
                        }
                },
                Err(()) => false,
            },
    {
        let mut writes: Vec<KeyringWrite> = Vec::new();
        let mut i: usize = 0;
        while i < keys.len()
            invariant
                i <= keys.len(),
                writes.len() == i,
                forall|j: int|
                    0 <= j < i ==> {
                        &&& (#[trigger] writes@[j]).service@ == keyring_service()
                        &&& writes@[j].user@ == keyring_user(keys@[j].0)
                        &&& writes@[j].secret@ == keys@[j].1@
                    },
            decreases keys.len() - i,
        {
            let (key_type, key_value) = &keys[i];
            let write = match key_type {
                KeyType::SetlistFmApiKey => KeyringWrite {
                    service: key_type.keyring_service(),
                    user: key_type.keyring_user(),
                    secret: key_value.clone(),
                },
            };
            writes.push(write);
            i += 1;
        }
        Ok(writes)
    }

    /// The setlist.fm API key: the one in the keyring if there is one, else the one
    /// in the environment, if any.
    pub fn get_setlist_fm_api_key(
        &self,
        keyring_secret: Option<String>,
        env_secret: Option<String>,
    ) -> (key: Option<String>)
        ensures
            key == (match keyring_secret {
                Some(s) => Some(s),
                None => env_secret,
            }),
    {
        match keyring_secret {
            Some(secret) => Some(secret),
            None => env_secret,
        }
    }
}

} // verus!
