# dekyx-core

Application-neutral identity and qualification verification. An issuer vouches for
qualifications of a subject; the subject shows chosen ones of them, under a pseudonym that is
stable within a scope, in answer to one exact request; a verifier decides whether that meets a
policy.

`src/` is the library, verified with Verus:

- `qualification`, `tree`, `membership`: qualifications, the hash tree that commits to a set of
  them, membership proofs and what they are worth
- `credential`, `issuance`, `witness`, `pedersen`: requests, proofs of possession, credentials,
  and the arithmetic behind commitments and pseudonyms
- `issuer`, `status`, `directory`, `record`: issuer key epochs, revocation lists, rotation, and
  the stored form of the trust state
- `presentation`, `eligibility`, `ledger`: anonymous presentations, the verdict on them, and the
  refusal of replays
- `custody`: keeping a witness sealed for recovery
- `signature`: what is signed, and what the signature backend reported
- `binding`: what statements, contexts, holder signatures, subject lines, uses of contexts and
  sealings are hashed from determines what they are about
- `bytes`, `fields`, `text`, `store`: byte strings, framed fields, keys, and an ordered map
- `hash`, `group`: the outside functions that the library rests on, each with the contract that
  is taken on trust

`app/` connects the library to the signature and sealing backend, to random draws, and to JSON.
The library never holds a signing key of an issuer: it says what has to be signed or verified,
and takes the outcome as a value.
