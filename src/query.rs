use vstd::prelude::*;
use crate::types::BlockNum;

verus! {

/// What the root lookup endpoint answers: the block at which a root was committed.
#[derive(Clone, Copy, Debug, PartialEq, Eq, Structural)]
pub struct MerkleTreeData {
    pub block_number: BlockNum,
}

/// Why a root lookup failed.
#[derive(Clone, Copy, Debug, PartialEq, Eq, Structural)]
pub enum QueryError {
    /// The request did not hold exactly two parameters.
    InvalidParams,
    /// No committed tree has that root and group.
    NotFound,
    /// The tree history store could not be queried.
    StoreUnreachable,
}

/// The two parameters of a root lookup, the root's text and the group's
/// identifier text, in that order.
pub fn parse_lookup_params(params: Vec<String>) -> (r: Result<(String, String), QueryError>)
    ensures
        r is Ok <==> params@.len() == 2,
        r is Err ==> r == Err::<(String, String), QueryError>(QueryError::InvalidParams),
        r matches Ok((root, group)) ==> root@ == params@[0]@ && group@ == params@[1]@,
{
    if params.len() != 2 {
        return Err(QueryError::InvalidParams);
    }
    let mut params = params;
    let group = params.pop().unwrap();
    let root = params.pop().unwrap();
    Ok((root, group))
}

/// The answer to a root lookup from the block numbers of the matching rows
/// (`None` when the store could not be queried): the first row's block number.
pub fn lookup_answer(rows: Option<Vec<i64>>) -> (r: Result<MerkleTreeData, QueryError>)
    ensures
        rows is None ==> r == Err::<MerkleTreeData, QueryError>(QueryError::StoreUnreachable),
        rows is Some && rows.unwrap()@.len() == 0 ==> r == Err::<MerkleTreeData, QueryError>(
            QueryError::NotFound,
        ),
        rows is Some && rows.unwrap()@.len() > 0 ==> r == Ok::<MerkleTreeData, QueryError>(
            (MerkleTreeData { block_number: rows.unwrap()@[0] as BlockNum }),
        ),
{
    match rows {
        None => Err(QueryError::StoreUnreachable),
        Some(v) => {
            if v.len() == 0 {
                Err(QueryError::NotFound)
            } else {
                Ok(MerkleTreeData { block_number: v[0] as BlockNum })
            }
        },
    }
}

} // verus!
