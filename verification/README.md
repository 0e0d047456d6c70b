# exchange_rates

EUR exchange rates from the European Central Bank, served as MCP tools
(`get_exchange_rate`, `convert_currency`).

- `src/` is the verified library (Verus): calendar days as chrono day numbers
  (`calendar`), the per-(currency, day) rate cache (`rates`), the planning of
  a one-year ECB request and the loading of its CSV rows into the cache
  (`ecb`), and the tool decisions: supported currencies, conversion plans and
  the look-back to the most recent day with a published rate (`server`).
- `app/` is the MCP server around it: HTTP requests, the CSV reader, locks,
  and the float arithmetic and formatting of amounts.
- `tests/` exercises the library with ECB data held in the tests.
