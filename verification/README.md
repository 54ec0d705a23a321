# core_staking

The verified core of a Solana staking program for Metaplex Core NFTs.
An asset's staking state lives in its `Attributes` plugin (`staked`,
`staked_at`, `rewards_updated_at`); rewards are minted per whole day staked.

- `src/` — the library, verified with Verus:
  - `asset`: reads the `Attributes` plugin out of raw asset account bytes
    (decoding through `mpl_core`, behind trusted wrappers, with a verified
    step function for what follows each decoding);
  - `claim`, `unstake`: what a claim or an unstake does to the attribute list,
    and the whole days it pays for;
  - `rewards`: elapsed whole days and the reward amount;
  - `decimal`: the decimal text of timestamps and counters;
  - `lifecycle`: proved properties across operations (a claim resets the
    reward clock, no day is paid twice, an unstaked asset earns nothing,
    the collection's `staked_count` stays the number of staked assets).
- `app/` — the Anchor instruction handlers: account validation, clock,
  and the cross-program calls into Metaplex Core and the token program.
- `tests/` — tests of the library, with asset accounts built by `mpl_core`.
