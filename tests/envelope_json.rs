use serde::ser::{SerializeStruct, SerializeTuple};
use serde::{Serialize, Serializer};
use txgen::account::AccountId;
use txgen::envelope::{Password, PersonalSendTransaction, PersonalSendTransactionParams, Transaction};

struct Json<'a>(&'a PersonalSendTransaction);

struct TxJson<'a>(&'a Transaction);

impl<'a> Serialize for TxJson<'a> {
    fn serialize<S: Serializer>(&self, s: S) -> Result<S::Ok, S::Error> {
        let mut st = s.serialize_struct("Transaction", 3)?;
        st.serialize_field("from", &self.0.from.0)?;
        st.serialize_field("to", &self.0.to.0)?;
        st.serialize_field("value", &self.0.value)?;
        st.end()
    }
}

impl<'a> Serialize for Json<'a> {
    fn serialize<S: Serializer>(&self, s: S) -> Result<S::Ok, S::Error> {
        let mut st = s.serialize_struct("Wrapper", 4)?;
        st.serialize_field("jsonrpc", &self.0.jsonrpc)?;
        st.serialize_field("method", &self.0.method)?;
        st.serialize_field("params", &Params(&self.0.params))?;
        st.serialize_field("id", &self.0.id)?;
        st.end()
    }
}

struct Params<'a>(&'a PersonalSendTransactionParams);

impl<'a> Serialize for Params<'a> {
    fn serialize<S: Serializer>(&self, s: S) -> Result<S::Ok, S::Error> {
        let mut t = s.serialize_tuple(2)?;
        t.serialize_element(&TxJson(&self.0 .0))?;
        t.serialize_element(&self.0 .1 .0)?;
        t.end()
    }
}

#[test]
fn like_the_wiki() {
    let from = AccountId("0x004ec07d2329997267Ec62b4166639513386F32E".into());
    let to = AccountId("0x00Bd138aBD70e2F00903268F3Db08f2D25677C9e".into());
    let value = "0xde0b6b3a7640000";

    let transaction = Transaction { from: from, to: to, value: value.into() };

    let params = PersonalSendTransactionParams(transaction, Password("user".into()));

    let rpc = vec![PersonalSendTransaction::new(params, 0)];
    let json: Vec<Json> = rpc.iter().map(Json).collect();

    let actual = serde_json::to_string(&json).unwrap();

    let expected = r#"[{"jsonrpc":"2.0","method":"personal_sendTransaction","params":[{"from":"0x004ec07d2329997267Ec62b4166639513386F32E","to":"0x00Bd138aBD70e2F00903268F3Db08f2D25677C9e","value":"0xde0b6b3a7640000"},"user"],"id":0}]"#;
    assert_eq!(actual, expected);
}
