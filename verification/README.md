# onchain_contracts

Verified state machines of a set of Soroban DeFi contracts, with Soroban
contracts around them.

- `src/` is the library, verified with Verus: the lending pool (`lending`),
  the constant-product liquidity pool (`amm`), the price oracle (`pricing`),
  the timelocked upgradable contract (`timelock`), the notification broker
  (`broker`) and the multi-provider yield vault (`vault`). Accounts, assets
  and symbols are integer ids; time and the calling account are arguments.
  Each operation returns what the host must carry out (token transfers,
  provider calls, listeners to notify, code to install) as plain values.
- `app/` holds the Soroban contracts: they map addresses and symbols to ids,
  check authorization, perform the transfers and calls the library returns,
  publish events, and abort where the library's preconditions say an input
  is refused.
- `tests/` runs the library on concrete scenarios.
